//! File names of `/`-separated paths, as `std::path::Path` reads them on Unix.
use vstd::prelude::*;
use crate::common::{chars_of, eq_ignore_ascii_case, range_eq_ignore_ascii_case, string_of};

verus! {

/// Index of the last `c` in `s`, or -1 when there is none.
pub open spec fn rindex_of(s: Seq<char>, c: char) -> int
    decreases s.len(),
{
    if s.len() == 0 {
        -1
    } else if s.last() == c {
        s.len() - 1
    } else {
        rindex_of(s.drop_last(), c)
    }
}

proof fn lemma_rindex_of(s: Seq<char>, c: char, k: int)
    requires
        -1 <= k < s.len(),
        forall|j: int| k < j < s.len() ==> s[j] != c,
        k == -1 || s[k] == c,
    ensures
        rindex_of(s, c) == k,
    decreases s.len(),
{
    if s.len() > 0 && s.last() != c {
        lemma_rindex_of(s.drop_last(), c, k);
    }
}

/// The last `c` in `cs[0..to]`.
fn rfind_char(cs: &Vec<char>, to: usize, c: char) -> (r: Option<usize>)
    requires
        to <= cs@.len(),
    ensures
        match r {
            Some(k) => k < to && rindex_of(cs@.take(to as int), c) == k,
            None => rindex_of(cs@.take(to as int), c) == -1,
        },
{
    let mut i = to;
    while i > 0
        invariant
            i <= to <= cs@.len(),
            forall|j: int| i <= j < to ==> cs@[j] != c,
        decreases i,
    {
        if cs[i - 1] == c {
            proof {
                lemma_rindex_of(cs@.take(to as int), c, i - 1);
            }
            return Some(i - 1);
        }
        i -= 1;
    }
    proof {
        lemma_rindex_of(cs@.take(to as int), c, -1);
    }
    None
}

/// The last component of `p`, as `Path::file_name` gives it: trailing `/` and `.` components are
/// passed over, and a path that ends in `..` or has no such component has none.
pub open spec fn file_name(p: Seq<char>) -> Option<Seq<char>>
    decreases p.len(),
{
    let k = rindex_of(p, '/');
    let seg = p.skip(k + 1);
    if seg.len() > 0 && seg != seq!['.'] {
        if seg == seq!['.', '.'] {
            None
        } else {
            Some(seg)
        }
    } else if k < 0 {
        None
    } else {
        proof {
            lemma_rindex_bounds(p, '/');
        }
        file_name(p.take(k))
    }
}

/// `rindex_of` is -1 or the index of a `c` in `s`.
pub proof fn lemma_rindex_bounds(s: Seq<char>, c: char)
    ensures
        -1 <= rindex_of(s, c) < s.len(),
        rindex_of(s, c) >= 0 ==> s[rindex_of(s, c)] == c,
    decreases s.len(),
{
    if s.len() > 0 && s.last() != c {
        lemma_rindex_bounds(s.drop_last(), c);
    }
}

/// The bounds of the file name of `cs`, if it has one.
fn file_name_range(cs: &Vec<char>) -> (r: Option<(usize, usize)>)
    ensures
        match r {
            Some((a, b)) => a <= b <= cs@.len() && file_name(cs@) == Some(
                cs@.subrange(a as int, b as int),
            ),
            None => file_name(cs@) is None,
        },
{
    let mut end = cs.len();
    assert(cs@.take(end as int) =~= cs@);
    loop
        invariant
            end <= cs@.len(),
            file_name(cs@) == file_name(cs@.take(end as int)),
        decreases end,
    {
        let ghost p = cs@.take(end as int);
        let k = rfind_char(cs, end, '/');
        let start = match k {
            Some(k) => k + 1,
            None => 0,
        };
        proof {
            lemma_rindex_bounds(p, '/');
            assert(p.skip(rindex_of(p, '/') + 1) =~= cs@.subrange(start as int, end as int));
        }
        let len = end - start;
        let dot = len == 1 && cs[start] == '.';
        if len > 0 && !dot {
            if len == 2 && cs[start] == '.' && cs[start + 1] == '.' {
                assert(cs@.subrange(start as int, end as int) =~= seq!['.', '.']);
                return None;
            }
            proof {
                let seg = cs@.subrange(start as int, end as int);
                if seg == seq!['.', '.'] {
                    assert(seg[1] == cs@[start + 1]);
                }
                if seg == seq!['.'] {
                    assert(seg[0] == cs@[start as int]);
                }
                assert(seg != seq!['.']);
                assert(seg != seq!['.', '.']);
            }
            return Some((start, end));
        }
        proof {
            if dot {
                assert(cs@.subrange(start as int, end as int) =~= seq!['.']);
            }
        }
        match k {
            Some(k) => {
                assert(p.take(k as int) =~= cs@.take(k as int));
                end = k;
            },
            None => {
                return None;
            },
        }
    }
}

/// The name shown for `path`: its file name, or the whole path when it has none.
pub open spec fn display_name_of(path: Seq<char>) -> Seq<char> {
    match file_name(path) {
        Some(name) => name,
        None => path,
    }
}

/// The name shown for `path`: its file name, or the whole path when it has none.
pub fn display_name(path: &str) -> (res: String)
    ensures
        res@ == display_name_of(path@),
{
    let cs = chars_of(path);
    match file_name_range(&cs) {
        Some((a, b)) => string_of(&cs, a, b),
        None => string_of(&cs, 0, cs.len()),
    }
}

/// The extension of `p`, as `Path::extension` gives it: what follows the last `.` of the file
/// name, unless that `.` starts the name.
pub open spec fn extension(p: Seq<char>) -> Option<Seq<char>> {
    match file_name(p) {
        Some(f) => {
            let k = rindex_of(f, '.');
            if k <= 0 {
                None
            } else {
                Some(f.skip(k + 1))
            }
        },
        None => None,
    }
}

/// The extension of a file name is what follows its last `.`: a name `a.e` whose `a` is not empty
/// and whose `e` holds no `.` has extension `e`, whatever dots `a` holds.
pub proof fn lemma_extension_follows_last_dot(a: Seq<char>, e: Seq<char>)
    requires
        a.len() > 0,
        forall|j: int| 0 <= j < a.len() ==> a[j] != '/',
        forall|j: int| 0 <= j < e.len() ==> e[j] != '/' && e[j] != '.',
        !(a == seq!['.'] && e.len() == 0),
    ensures
        file_name(a + seq!['.'] + e) == Some(a + seq!['.'] + e),
        extension(a + seq!['.'] + e) == Some(e),
{
    let f = a + seq!['.'] + e;
    assert forall|j: int| -1 < j < f.len() implies f[j] != '/' by {
        if j < a.len() {
            assert(f[j] == a[j]);
        } else if j > a.len() {
            assert(f[j] == e[j - a.len() - 1]);
        }
    }
    lemma_rindex_of(f, '/', -1);
    assert(f.skip(0) =~= f);
    if f == seq!['.', '.'] {
        assert(f.len() == 2);
        assert(a.len() == 1);
        assert(a[0] == f[0]);
        assert(a =~= seq!['.']);
    }
    assert(f.len() >= 2);
    assert(f != seq!['.']);
    assert forall|j: int| a.len() < j < f.len() implies f[j] != '.' by {
        assert(f[j] == e[j - a.len() - 1]);
    }
    lemma_rindex_of(f, '.', a.len() as int);
    assert(f.skip(a.len() + 1int) =~= e);
}

/// A file name with no `.` after its first character has no extension: a name without a dot, or
/// one whose only dot starts it, such as `.md`.
pub proof fn lemma_no_extension_without_inner_dot(f: Seq<char>)
    requires
        f.len() > 0,
        forall|j: int| 0 <= j < f.len() ==> f[j] != '/',
        forall|j: int| 0 < j < f.len() ==> f[j] != '.',
    ensures
        extension(f) is None,
{
    lemma_rindex_of(f, '/', -1);
    assert(f.skip(0) =~= f);
    if f[0] == '.' {
        lemma_rindex_of(f, '.', 0);
    } else {
        lemma_rindex_of(f, '.', -1);
    }
}

/// `p` names a markdown file: its extension is `md` or `markdown`, in any case.
pub open spec fn is_markdown_name(p: Seq<char>) -> bool {
    match extension(p) {
        Some(e) => eq_ignore_ascii_case(e, seq!['m', 'd']) || eq_ignore_ascii_case(
            e,
            seq!['m', 'a', 'r', 'k', 'd', 'o', 'w', 'n'],
        ),
        None => false,
    }
}

/// The bounds of the extension of `cs`, if it has one.
pub fn extension_range(cs: &Vec<char>) -> (r: Option<(usize, usize)>)
    ensures
        match r {
            Some((a, b)) => a <= b <= cs@.len() && extension(cs@) == Some(
                cs@.subrange(a as int, b as int),
            ),
            None => extension(cs@) is None,
        },
{
    match file_name_range(cs) {
        Some((a, b)) => {
            let mut i = b;
            while i > a
                invariant
                    a <= i <= b <= cs@.len(),
                    forall|j: int| i <= j < b ==> cs@[j] != '.',
                ensures
                    a <= i <= b,
                    forall|j: int| i <= j < b ==> cs@[j] != '.',
                    i == a || cs@[i - 1] == '.',
                decreases i,
            {
                if cs[i - 1] == '.' {
                    break;
                }
                i -= 1;
            }
            let ghost f = cs@.subrange(a as int, b as int);
            if i - a <= 1 {
                proof {
                    if i == a + 1 && cs@[a as int] == '.' {
                        lemma_rindex_of(f, '.', 0);
                    } else {
                        lemma_rindex_of(f, '.', -1);
                    }
                }
                None
            } else {
                proof {
                    lemma_rindex_of(f, '.', i - 1 - a);
                    assert(f.skip(i - a) =~= cs@.subrange(i as int, b as int));
                }
                Some((i, b))
            }
        },
        None => None,
    }
}

/// Whether `name` names a markdown file, by its extension.
pub fn is_markdown(name: &str) -> (res: bool)
    ensures
        res == is_markdown_name(name@),
{
    let cs = chars_of(name);
    let mut md: Vec<char> = Vec::new();
    md.push('m');
    md.push('d');
    let mut markdown: Vec<char> = Vec::new();
    markdown.push('m');
    markdown.push('a');
    markdown.push('r');
    markdown.push('k');
    markdown.push('d');
    markdown.push('o');
    markdown.push('w');
    markdown.push('n');
    assert(md@ =~= seq!['m', 'd']);
    assert(markdown@ =~= seq!['m', 'a', 'r', 'k', 'd', 'o', 'w', 'n']);
    match extension_range(&cs) {
        Some((a, b)) => range_eq_ignore_ascii_case(&cs, a, b, &md) || range_eq_ignore_ascii_case(
            &cs,
            a,
            b,
            &markdown,
        ),
        None => false,
    }
}

} // verus!
