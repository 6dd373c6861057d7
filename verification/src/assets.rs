//! The CSS and JavaScript files given with `--inject`, which every page embeds, and the hashes
//! that identify a version of a page.
use std::hash::{DefaultHasher, Hasher};
use vstd::prelude::*;
use vstd::std_specs::hash::DefaultHasherAdditionalSpecFns;
use vstd::utf8::encode_utf8;
use crate::common::{
    chars_of, decimal, eq_ignore_ascii_case, hex_digits, push_decimal, push_hex,
    range_eq_ignore_ascii_case,
};
use crate::common::{hex_lower_char, index_of, lemma_index_of, leading_ws, trailing_ws, trimmed};
use crate::path::{extension, extension_range};
use crate::text::{list_matches, tag_matches};
use crate::tree::Node;

verus! {

/// The CSS and JavaScript given with `--inject`, embedded in every page so the reader can be
/// extended, with custom element definitions for example, without rebuilding.
pub struct Assets {
    pub styles: Vec<String>,
    pub scripts: Vec<String>,
}

impl Default for Assets {
    fn default() -> (res: Assets)
        ensures
            res.styles@.len() == 0,
            res.scripts@.len() == 0,
    {
        Assets { styles: Vec::new(), scripts: Vec::new() }
    }
}

/// The kind of an injected file, by its extension.
pub enum AssetKind {
    Style,
    Script,
}

/// A `.css` file is a style and a `.js` file a script, whatever the case of the extension.
pub open spec fn asset_kind(path: Seq<char>) -> Option<AssetKind> {
    match extension(path) {
        Some(e) => if eq_ignore_ascii_case(e, seq!['c', 's', 's']) {
            Some(AssetKind::Style)
        } else if eq_ignore_ascii_case(e, seq!['j', 's']) {
            Some(AssetKind::Script)
        } else {
            None
        },
        None => None,
    }
}

/// The tag that would end the element a file of this kind is embedded in.
pub open spec fn closing_tag(kind: AssetKind) -> Seq<char> {
    match kind {
        AssetKind::Style => "</style"@,
        AssetKind::Script => "</script"@,
    }
}

/// `s` holds `word` somewhere, ignoring the case of ASCII letters.
pub open spec fn contains_ignoring_case(s: Seq<char>, word: Seq<char>) -> bool {
    exists|i: int|
        0 <= i && i + word.len() <= s.len() && eq_ignore_ascii_case(
            #[trigger] s.subrange(i, i + word.len()),
            word,
        )
}

/// Whether `cs` holds `word`, ignoring the case of ASCII letters.
fn contains_ignore_case(cs: &Vec<char>, word: &Vec<char>) -> (res: bool)
    ensures
        res == contains_ignoring_case(cs@, word@),
{
    let n = word.len();
    if n > cs.len() {
        return false;
    }
    let mut i: usize = 0;
    while i <= cs.len() - n
        invariant
            n == word@.len() <= cs@.len(),
            i <= cs@.len(),
            forall|j: int|
                0 <= j < i ==> !eq_ignore_ascii_case(#[trigger] cs@.subrange(j, j + n), word@),
        decreases cs@.len() - i,
    {
        if range_eq_ignore_ascii_case(cs, i, i + n, word) {
            return true;
        }
        i += 1;
    }
    false
}

/// The message for a file that is neither CSS nor JavaScript.
pub open spec fn wrong_kind_message(path: Seq<char>) -> Seq<char> {
    path + ": expected a .css or .js file"@
}

/// The message for a file that would end the element it is embedded in.
pub open spec fn closing_tag_message(path: Seq<char>, kind: AssetKind) -> Seq<char> {
    path + ": cannot embed a file containing `"@ + closing_tag(kind) + "`"@
}

impl Assets {
    /// Adds the injected file at `path`, whose text is `content`. A `.css` file becomes a
    /// `<style>` and a `.js` file a `<script type="module">`. The file is embedded as written, so
    /// one holding the closing tag of its element is refused, as is any other kind of file.
    pub fn add_asset(&mut self, path: &str, content: String) -> (res: Result<(), String>)
        ensures
            match asset_kind(path@) {
                None => {
                    &&& res matches Err(e) && e@ == wrong_kind_message(path@)
                    &&& final(self).styles@ == old(self).styles@
                    &&& final(self).scripts@ == old(self).scripts@
                },
                Some(kind) => if contains_ignoring_case(content@, closing_tag(kind)) {
                    &&& res matches Err(e) && e@ == closing_tag_message(path@, kind)
                    &&& final(self).styles@ == old(self).styles@
                    &&& final(self).scripts@ == old(self).scripts@
                } else {
                    &&& res is Ok
                    &&& final(self).styles@ == match kind {
                        AssetKind::Style => old(self).styles@.push(content),
                        AssetKind::Script => old(self).styles@,
                    }
                    &&& final(self).scripts@ == match kind {
                        AssetKind::Style => old(self).scripts@,
                        AssetKind::Script => old(self).scripts@.push(content),
                    }
                },
            },
    {
        let cs = chars_of(path);
        let css = chars_of("css");
        let js = chars_of("js");
        proof {
            reveal_strlit("css");
            reveal_strlit("js");
            assert(css@ =~= seq!['c', 's', 's']);
            assert(js@ =~= seq!['j', 's']);
        }
        let kind = match extension_range(&cs) {
            Some((a, b)) => if range_eq_ignore_ascii_case(&cs, a, b, &css) {
                Some(AssetKind::Style)
            } else if range_eq_ignore_ascii_case(&cs, a, b, &js) {
                Some(AssetKind::Script)
            } else {
                None
            },
            None => None,
        };
        let mut message = String::new();
        message.push_str(path);
        match kind {
            None => {
                message.push_str(": expected a .css or .js file");
                Err(message)
            },
            Some(AssetKind::Style) => {
                let closing = chars_of("</style");
                let text = chars_of(content.as_str());
                if contains_ignore_case(&text, &closing) {
                    message.push_str(": cannot embed a file containing `");
                    message.push_str("</style");
                    message.push_str("`");
                    Err(message)
                } else {
                    self.styles.push(content);
                    Ok(())
                }
            },
            Some(AssetKind::Script) => {
                let closing = chars_of("</script");
                let text = chars_of(content.as_str());
                if contains_ignore_case(&text, &closing) {
                    message.push_str(": cannot embed a file containing `");
                    message.push_str("</script");
                    message.push_str("`");
                    Err(message)
                } else {
                    self.scripts.push(content);
                    Ok(())
                }
            },
        }
    }
}

/// The bytes written before a string or a list: its length in decimal and a `:`, so that the
/// bytes hashed for a page never run two versions together.
pub open spec fn length_prefix(n: nat) -> Seq<u8> {
    encode_utf8(decimal(n).push(':'))
}

/// The writes that hash the string `s`.
pub open spec fn str_writes(s: Seq<char>) -> Seq<Seq<u8>> {
    seq![length_prefix(encode_utf8(s).len()), encode_utf8(s)]
}

/// The writes that hash each of the strings `ss`, after their number.
pub open spec fn strings_writes(ss: Seq<String>) -> Seq<Seq<u8>>
    decreases ss.len(),
{
    if ss.len() == 0 {
        seq![]
    } else {
        strings_writes(ss.drop_last()) + str_writes(ss.last()@)
    }
}

/// The writes that hash a set of injected files.
pub open spec fn assets_writes(a: Assets) -> Seq<Seq<u8>> {
    seq![length_prefix(a.styles@.len())] + strings_writes(a.styles@) + seq![
        length_prefix(a.scripts@.len()),
    ] + strings_writes(a.scripts@)
}

/// The writes that hash one node of a tree.
pub open spec fn node_writes(n: Node) -> Seq<Seq<u8>>
    decreases n,
{
    match n {
        Node::Dir { name, children } => seq![seq![100u8]] + str_writes(name@) + seq![
            length_prefix(children@.len()),
        ] + nodes_writes(children@),
        Node::File { name, path } => seq![seq![102u8]] + str_writes(name@) + str_writes(path@),
    }
}

/// The writes that hash the nodes `nodes`, in order.
pub open spec fn nodes_writes(nodes: Seq<Node>) -> Seq<Seq<u8>>
    decreases nodes,
{
    if nodes.len() == 0 {
        seq![]
    } else {
        node_writes(nodes[0]) + nodes_writes(nodes.drop_first())
    }
}

fn write_prefix(hasher: &mut DefaultHasher, n: usize)
    ensures
        final(hasher)@ == old(hasher)@.push(length_prefix(n as nat)),
{
    let mut s = String::new();
    push_decimal(&mut s, n);
    s.push(':');
    hasher.write(s.as_str().as_bytes());
}

fn write_str(hasher: &mut DefaultHasher, s: &str)
    ensures
        final(hasher)@ == old(hasher)@ + str_writes(s@),
{
    let bytes = s.as_bytes();
    write_prefix(hasher, bytes.len());
    hasher.write(bytes);
    assert(hasher@ =~= old(hasher)@ + str_writes(s@));
}

fn write_strings(hasher: &mut DefaultHasher, ss: &Vec<String>)
    ensures
        final(hasher)@ == old(hasher)@ + seq![length_prefix(ss@.len())] + strings_writes(ss@),
{
    write_prefix(hasher, ss.len());
    let ghost start = hasher@;
    let mut i: usize = 0;
    assert(ss@.take(0) =~= Seq::<String>::empty());
    while i < ss.len()
        invariant
            0 <= i <= ss@.len(),
            hasher@ == start + strings_writes(ss@.take(i as int)),
        decreases ss@.len() - i,
    {
        write_str(hasher, ss[i].as_str());
        proof {
            assert(ss@.take(i + 1).drop_last() =~= ss@.take(i as int));
            assert(hasher@ =~= start + strings_writes(ss@.take(i + 1)));
        }
        i += 1;
    }
    assert(ss@.take(i as int) =~= ss@);
    assert(hasher@ =~= old(hasher)@ + seq![length_prefix(ss@.len())] + strings_writes(ss@));
}

fn write_assets(hasher: &mut DefaultHasher, assets: &Assets)
    ensures
        final(hasher)@ == old(hasher)@ + assets_writes(*assets),
{
    write_strings(hasher, &assets.styles);
    write_strings(hasher, &assets.scripts);
    assert(hasher@ =~= old(hasher)@ + assets_writes(*assets));
}

fn write_nodes(hasher: &mut DefaultHasher, nodes: &[Node])
    ensures
        final(hasher)@ == old(hasher)@ + nodes_writes(nodes@),
    decreases nodes@,
{
    let ghost start = hasher@;
    let mut i: usize = 0;
    assert(nodes@.skip(0) =~= nodes@);
    while i < nodes.len()
        invariant
            0 <= i <= nodes@.len(),
            start + nodes_writes(nodes@) == hasher@ + nodes_writes(nodes@.skip(i as int)),
        decreases nodes@.len() - i,
    {
        let ghost before = hasher@;
        match &nodes[i] {
            Node::Dir { name, children } => {
                proof {
                    assert(decreases_to!(nodes@ => nodes@[i as int]));
                }
                let tag: [u8; 1] = [100u8];
                hasher.write(tag.as_slice());
                write_str(hasher, name.as_str());
                write_prefix(hasher, children.len());
                write_nodes(hasher, children.as_slice());
                assert(tag@ =~= seq![100u8]);
            },
            Node::File { name, path } => {
                let tag: [u8; 1] = [102u8];
                hasher.write(tag.as_slice());
                write_str(hasher, name.as_str());
                write_str(hasher, path.as_str());
                assert(tag@ =~= seq![102u8]);
            },
        }
        proof {
            assert(hasher@ =~= before + node_writes(nodes@[i as int]));
            assert(nodes@.skip(i as int).drop_first() =~= nodes@.skip(i + 1));
            assert(before + nodes_writes(nodes@.skip(i as int)) =~= hasher@ + nodes_writes(
                nodes@.skip(i + 1),
            ));
        }
        i += 1;
    }
    proof {
        assert(nodes_writes(nodes@.skip(i as int)) =~= Seq::<Seq<u8>>::empty());
        assert(hasher@ =~= start + nodes_writes(nodes@));
    }
}

/// The fingerprint of a set of injected files: the hash of their contents in sixteen lowercase
/// hexadecimal digits.
pub open spec fn fingerprint_of(a: Assets) -> Seq<char> {
    hex_digits(DefaultHasher::spec_finish(assets_writes(a)) as nat, 16)
}

impl Assets {
    /// Identifies this set of files, so a page can tell that they changed and reload itself.
    pub fn fingerprint(&self) -> (res: String)
        ensures
            res@ == fingerprint_of(*self),
    {
        let mut hasher = DefaultHasher::new();
        write_assets(&mut hasher, self);
        assert(hasher@ =~= assets_writes(*self));
        let mut out = String::new();
        push_hex(&mut out, hasher.finish(), 16);
        out
    }
}

/// What a page is rendered from, which its entity tag identifies.
pub enum PageSource<'a> {
    /// A single markdown file.
    File { assets: &'a Assets, markdown: &'a str },
    /// The index page of a directory.
    Index { tree: &'a [Node], assets: &'a Assets },
    /// A markdown file in a directory, shown with the directory's sidebar.
    DirFile { tree: &'a [Node], assets: &'a Assets, markdown: &'a str },
}

/// The writes that hash what a page is rendered from.
pub open spec fn source_writes(source: PageSource) -> Seq<Seq<u8>> {
    match source {
        PageSource::File { assets, markdown } => assets_writes(*assets) + str_writes(markdown@),
        PageSource::Index { tree, assets } => nodes_writes(tree@) + assets_writes(*assets),
        PageSource::DirFile { tree, assets, markdown } => nodes_writes(tree@) + assets_writes(
            *assets,
        ) + str_writes(markdown@),
    }
}

/// The writes of nodes, then one more node: those of the nodes, then those of the node.
proof fn lemma_nodes_writes_push(nodes: Seq<Node>, n: Node)
    ensures
        nodes_writes(nodes.push(n)) == nodes_writes(nodes) + node_writes(n),
    decreases nodes.len(),
{
    if nodes.len() == 0 {
        assert(nodes.push(n).drop_first() =~= Seq::<Node>::empty());
        assert(nodes_writes(Seq::<Node>::empty()) == Seq::<Seq<u8>>::empty());
        assert(node_writes(n) + Seq::<Seq<u8>>::empty() =~= node_writes(n));
        assert(Seq::<Seq<u8>>::empty() + node_writes(n) =~= node_writes(n));
    } else {
        assert(nodes.push(n).drop_first() =~= nodes.drop_first().push(n));
        lemma_nodes_writes_push(nodes.drop_first(), n);
        assert(nodes.push(n)[0] == nodes[0]);
        assert(nodes_writes(nodes.push(n)) =~= nodes_writes(nodes) + node_writes(n));
    }
}

/// What a page of a directory's file is rendered from covers the directory's tree: its writes
/// are those of the tree, then those of the same file on its own, and a tree with one more node
/// gives other writes, for the file's page and for the index page alike.
pub proof fn lemma_dir_pages_cover_tree(
    tree: &[Node],
    larger: &[Node],
    n: Node,
    assets: &Assets,
    markdown: &str,
)
    requires
        larger@ == tree@.push(n),
    ensures
        source_writes(PageSource::DirFile { tree, assets, markdown }) == nodes_writes(tree@)
            + source_writes(PageSource::File { assets, markdown }),
        source_writes(PageSource::Index { tree, assets }) == nodes_writes(tree@) + assets_writes(
            *assets,
        ),
        source_writes(PageSource::DirFile { tree: larger, assets, markdown }) != source_writes(
            PageSource::DirFile { tree, assets, markdown },
        ),
        source_writes(PageSource::Index { tree: larger, assets }) != source_writes(
            PageSource::Index { tree, assets },
        ),
{
    lemma_nodes_writes_push(tree@, n);
    assert(node_writes(n).len() > 0);
    let f = source_writes(PageSource::DirFile { tree, assets, markdown });
    assert(f =~= nodes_writes(tree@) + source_writes(PageSource::File { assets, markdown }));
    assert(source_writes(PageSource::DirFile { tree: larger, assets, markdown }).len() > f.len());
    assert(source_writes(PageSource::Index { tree: larger, assets }).len() > source_writes(
        PageSource::Index { tree, assets },
    ).len());
}

/// What a page is rendered from covers its markdown: pages of two different markdown texts, with
/// the same injected files and tree, have different writes.
pub proof fn lemma_pages_cover_markdown(
    tree: &[Node],
    assets: &Assets,
    markdown: &str,
    other: &str,
)
    requires
        markdown@ != other@,
    ensures
        source_writes(PageSource::File { assets, markdown }) != source_writes(
            PageSource::File { assets, markdown: other },
        ),
        source_writes(PageSource::DirFile { tree, assets, markdown }) != source_writes(
            PageSource::DirFile { tree, assets, markdown: other },
        ),
{
    vstd::utf8::encode_utf8_decode_utf8(markdown@);
    vstd::utf8::encode_utf8_decode_utf8(other@);
    let a = source_writes(PageSource::File { assets, markdown });
    let b = source_writes(PageSource::File { assets, markdown: other });
    assert(a.last() == encode_utf8(markdown@));
    assert(b.last() == encode_utf8(other@));
    let c = source_writes(PageSource::DirFile { tree, assets, markdown });
    let d = source_writes(PageSource::DirFile { tree, assets, markdown: other });
    assert(c.last() == encode_utf8(markdown@));
    assert(d.last() == encode_utf8(other@));
}

/// The entity tag whose hash is `h`: sixteen lowercase hexadecimal digits in double quotes.
pub open spec fn etag_of_hash(h: u64) -> Seq<char> {
    seq!['"'] + hex_digits(h as nat, 16) + seq!['"']
}

/// Identifies a page version by hashing everything it is rendered from.
pub fn etag(source: &PageSource) -> (res: String)
    ensures
        res@ == etag_of_hash(DefaultHasher::spec_finish(source_writes(*source))),
{
    let mut hasher = DefaultHasher::new();
    match source {
        PageSource::File { assets, markdown } => {
            write_assets(&mut hasher, assets);
            write_str(&mut hasher, markdown);
        },
        PageSource::Index { tree, assets } => {
            write_nodes(&mut hasher, tree);
            write_assets(&mut hasher, assets);
        },
        PageSource::DirFile { tree, assets, markdown } => {
            write_nodes(&mut hasher, tree);
            write_assets(&mut hasher, assets);
            write_str(&mut hasher, markdown);
        },
    }
    assert(hasher@ =~= source_writes(*source));
    let mut out = String::new();
    out.push('"');
    push_hex(&mut out, hasher.finish(), 16);
    out.push('"');
    assert(out@ =~= etag_of_hash(DefaultHasher::spec_finish(source_writes(*source))));
    out
}

proof fn lemma_hex_digits_plain(x: nat, k: nat)
    ensures
        hex_digits(x, k).len() == k,
        forall|i: int|
            0 <= i < k ==> {
                let c = #[trigger] hex_digits(x, k)[i];
                ('0' <= c <= '9') || ('a' <= c <= 'f')
            },
    decreases k,
{
    if k > 0 {
        lemma_hex_digits_plain(x / 16, (k - 1) as nat);
        let d = x % 16;
        assert(('0' <= hex_lower_char(d) <= '9') || ('a' <= hex_lower_char(d) <= 'f'));
    }
}

/// A page's entity tag matches itself in `If-None-Match`, sent as is or marked weak: a browser
/// that already has this version of a page is told it has not changed.
pub proof fn lemma_etag_matches_itself(h: u64)
    ensures
        list_matches(etag_of_hash(h), etag_of_hash(h)),
        list_matches(seq!['W', '/'] + etag_of_hash(h), etag_of_hash(h)),
{
    let e = etag_of_hash(h);
    lemma_hex_digits_plain(h as nat, 16);
    assert(e.len() == 18);
    assert forall|j: int| 0 <= j < e.len() implies e[j] != ',' && e[j] != ' ' by {
        if 0 < j < 17 {
            assert(e[j] == hex_digits(h as nat, 16)[j - 1]);
        }
    }
    lemma_index_of(e, ',', e.len() as int);
    assert(e.take(e.len() as int) =~= e);
    assert(e.skip(0) =~= e);
    assert(leading_ws(e) == 0);
    assert(trailing_ws(e) == 0);
    assert(trimmed(e) =~= e);
    assert(tag_matches(e, e));
    let w = seq!['W', '/'] + e;
    assert forall|j: int| 0 <= j < w.len() implies w[j] != ',' by {
        if j >= 2 {
            assert(w[j] == e[j - 2]);
        }
    }
    lemma_index_of(w, ',', w.len() as int);
    assert(w.take(w.len() as int) =~= w);
    assert(w.skip(0) =~= w);
    assert(leading_ws(w) == 0);
    assert(w.last() == '"');
    assert(trailing_ws(w) == 0);
    assert(trimmed(w) =~= w);
    assert(w.skip(2) =~= e);
    assert(tag_matches(w, e));
}

} // verus!
