//! Heading ids: derived from the heading text the way GitHub does, and kept unique within a page.
use vstd::prelude::*;
use vstd::set_lib::{lemma_int_range, lemma_len_subset, lemma_map_size, set_int_range};
use crate::common::{decimal, digit_char, is_ascii_punctuation, is_whitespace, push_decimal};
use crate::tree::str_eq;

verus! {

/// The set of ids held by `ids`.
pub open spec fn id_set(ids: Seq<String>) -> Set<Seq<char>> {
    ids.map_values(|s: String| s@).to_set()
}

/// The id derived from an empty slug.
pub open spec fn id_base(slug: Seq<char>) -> Seq<char> {
    if slug.len() == 0 {
        "section"@
    } else {
        slug
    }
}

/// The `n`th id tried for `base`: `base`, then `base-1`, `base-2`, ...
pub open spec fn candidate(base: Seq<char>, n: nat) -> Seq<char> {
    if n == 0 {
        base
    } else {
        base + seq!['-'] + decimal(n)
    }
}

/// The first id tried for `base` that `taken` does not hold.
pub open spec fn first_free(base: Seq<char>, taken: Set<Seq<char>>) -> nat {
    choose|n: nat|
        !taken.contains(candidate(base, n)) && forall|m: nat|
            m < n ==> taken.contains(#[trigger] candidate(base, m))
}

/// The id that `unique_id` gives for `slug` when the ids in `taken` are in use.
pub open spec fn fresh_id(slug: Seq<char>, taken: Set<Seq<char>>) -> Seq<char> {
    candidate(id_base(slug), first_free(id_base(slug), taken))
}

proof fn lemma_decimal_len(n: nat)
    ensures
        decimal(n).len() >= 1,
        n >= 10 ==> decimal(n).len() >= 2,
    decreases n,
{
    if n >= 10 {
        lemma_decimal_len(n / 10);
    }
}

proof fn lemma_digit_char_injective(a: nat, b: nat)
    requires
        a < 10,
        b < 10,
        digit_char(a) == digit_char(b),
    ensures
        a == b,
{
    assert(((48 + a) as u8) as char == ((48 + b) as u8) as char);
    assert(((48 + a) as u8) as u32 == ((48 + b) as u8) as u32);
}

/// Different numbers are written differently.
proof fn lemma_decimal_injective(a: nat, b: nat)
    requires
        decimal(a) == decimal(b),
    ensures
        a == b,
    decreases a,
{
    lemma_decimal_len(a);
    lemma_decimal_len(b);
    if a < 10 && b < 10 {
        assert(decimal(a) == seq![digit_char(a)]);
        assert(decimal(b) == seq![digit_char(b)]);
        assert(seq![digit_char(a)][0] == seq![digit_char(b)][0]);
        lemma_digit_char_injective(a, b);
    } else if a >= 10 && b >= 10 {
        let da = decimal(a);
        let db = decimal(b);
        assert(da.last() == db.last());
        lemma_digit_char_injective(a % 10, b % 10);
        assert(da.drop_last() =~= decimal(a / 10));
        assert(db.drop_last() =~= decimal(b / 10));
        lemma_decimal_injective(a / 10, b / 10);
    } else if a < 10 {
        assert(decimal(a).len() == 1);
    } else {
        assert(decimal(b).len() == 1);
    }
}

proof fn lemma_candidate_injective(base: Seq<char>, a: nat, b: nat)
    requires
        candidate(base, a) == candidate(base, b),
    ensures
        a == b,
{
    lemma_decimal_len(a);
    lemma_decimal_len(b);
    if a > 0 && b > 0 {
        let ca = candidate(base, a);
        let cb = candidate(base, b);
        assert(ca.skip(base.len() + 1int) =~= decimal(a));
        assert(cb.skip(base.len() + 1int) =~= decimal(b));
        lemma_decimal_injective(a, b);
    } else if a > 0 {
        assert(candidate(base, a).len() > base.len());
    } else if b > 0 {
        assert(candidate(base, b).len() > base.len());
    }
}

/// Among the first `taken.len() + 1` ids tried, one is free.
proof fn lemma_some_candidate_free(base: Seq<char>, taken: Set<Seq<char>>)
    requires
        taken.finite(),
    ensures
        exists|n: nat| n <= taken.len() && !taken.contains(#[trigger] candidate(base, n)),
{
    if forall|n: nat| n <= taken.len() ==> taken.contains(#[trigger] candidate(base, n)) {
        let k = taken.len() as int;
        let f = |i: int| candidate(base, i as nat);
        let range = set_int_range(0, k + 1);
        lemma_int_range(0, k + 1);
        assert(vstd::relations::injective_on(f, range)) by {
            assert forall|x: int, y: int|
                range.contains(x) && range.contains(y) && #[trigger] f(x) == #[trigger] f(y) implies x
                == y by {
                lemma_candidate_injective(base, x as nat, y as nat);
            }
        }
        lemma_map_size(range, range.map(f), f);
        assert(range.map(f).subset_of(taken)) by {
            assert forall|s: Seq<char>| #[trigger] range.map(f).contains(s) implies taken.contains(
                s,
            ) by {
                let i = choose|i: int| range.contains(i) && f(i) == s;
                assert(taken.contains(candidate(base, i as nat)));
            }
        }
        lemma_len_subset(range.map(f), taken);
    }
}

/// Once some id tried is free, there is a first one that is.
proof fn lemma_least_free(base: Seq<char>, taken: Set<Seq<char>>, k: nat)
    requires
        !taken.contains(candidate(base, k)),
    ensures
        exists|n: nat|
            !taken.contains(#[trigger] candidate(base, n)) && forall|m: nat|
                m < n ==> taken.contains(#[trigger] candidate(base, m)),
    decreases k,
{
    if exists|m: nat| m < k && !taken.contains(#[trigger] candidate(base, m)) {
        let m = choose|m: nat| m < k && !taken.contains(#[trigger] candidate(base, m));
        lemma_least_free(base, taken, m);
    } else {
        assert(!taken.contains(candidate(base, k)) && forall|m: nat|
            m < k ==> taken.contains(#[trigger] candidate(base, m)));
    }
}

/// The id given for a slug is none of the ids in use.
pub proof fn lemma_fresh_id_is_free(slug: Seq<char>, taken: Set<Seq<char>>)
    requires
        taken.finite(),
    ensures
        !taken.contains(fresh_id(slug, taken)),
{
    let base = id_base(slug);
    lemma_some_candidate_free(base, taken);
    let k = choose|n: nat| n <= taken.len() && !taken.contains(#[trigger] candidate(base, n));
    lemma_least_free(base, taken, k);
}

/// Whether `id` is among `ids`.
fn holds_id(ids: &Vec<String>, id: &str) -> (res: bool)
    ensures
        res == id_set(ids@).contains(id@),
{
    let mut i: usize = 0;
    while i < ids.len()
        invariant
            0 <= i <= ids@.len(),
            forall|j: int| 0 <= j < i ==> ids@[j]@ != id@,
        decreases ids@.len() - i,
    {
        if str_eq(ids[i].as_str(), id) {
            assert(ids@.map_values(|s: String| s@)[i as int] == id@);
            return true;
        }
        i += 1;
    }
    proof {
        if id_set(ids@).contains(id@) {
            let views = ids@.map_values(|s: String| s@);
            let j = choose|j: int| 0 <= j < views.len() && #[trigger] views[j] == id@;
            assert(ids@[j]@ == id@);
        }
    }
    false
}

/// Marks `id` as taken.
pub fn take_id(ids: &mut Vec<String>, id: String)
    ensures
        id_set(final(ids)@) == id_set(old(ids)@).insert(id@),
{
    if !holds_id(ids, id.as_str()) {
        let ghost before = ids@;
        ids.push(id);
        proof {
            let old_ids = before.map_values(|s: String| s@);
            assert(ids@.map_values(|s: String| s@) =~= old_ids + seq![id@]);
            Seq::<Seq<char>>::lemma_to_set_insert_commutes(old_ids, id@);
        }
    }
    assert(id_set(ids@) =~= id_set(old(ids)@).insert(id@));
}

fn candidate_string(base: &String, n: usize) -> (res: String)
    ensures
        res@ == candidate(base@, n as nat),
{
    let mut s = base.clone();
    if n > 0 {
        s.push('-');
        push_decimal(&mut s, n);
    }
    s
}

/// Returns `slug`, or `slug-1`, `slug-2`, ... when it is already taken, and marks it as taken. An
/// empty slug stands for `section`.
pub fn unique_id(ids: &mut Vec<String>, slug: String) -> (res: String)
    ensures
        res@ == fresh_id(slug@, id_set(old(ids)@)),
        !id_set(old(ids)@).contains(res@),
        id_set(final(ids)@) == id_set(old(ids)@).insert(res@),
{
    let base = if slug.as_str().is_empty() {
        let mut s = String::new();
        s.push_str("section");
        s
    } else {
        slug
    };
    assert(base@ == id_base(slug@));
    let ghost taken = id_set(ids@);
    proof {
        vstd::seq_lib::seq_to_set_is_finite(ids@.map_values(|s: String| s@));
        ids@.map_values(|s: String| s@).lemma_cardinality_of_set();
        lemma_some_candidate_free(base@, taken);
    }
    let bound = ids.len();
    let mut n: usize = 0;
    let mut id = candidate_string(&base, 0);
    while holds_id(ids, id.as_str())
        invariant
            taken == id_set(ids@),
            taken.finite(),
            taken.len() <= bound,
            bound == ids@.len(),
            n <= bound,
            id@ == candidate(base@, n as nat),
            forall|m: nat| m < n ==> taken.contains(#[trigger] candidate(base@, m)),
            exists|k: nat| k <= taken.len() && !taken.contains(#[trigger] candidate(base@, k)),
        decreases bound - n,
    {
        if n >= bound {
            proof {
                let k = choose|k: nat| k <= taken.len() && !taken.contains(candidate(base@, k));
                if k < n {
                    assert(taken.contains(candidate(base@, k)));
                }
            }
        }
        n += 1;
        id = candidate_string(&base, n);
    }
    proof {
        let w = n as nat;
        assert(!taken.contains(candidate(base@, w)) && forall|m: nat|
            m < w ==> taken.contains(#[trigger] candidate(base@, m)));
        let c = first_free(base@, taken);
        if c < w {
            assert(taken.contains(candidate(base@, c)));
        } else if w < c {
            assert(taken.contains(candidate(base@, w)));
        }
    }
    take_id(ids, id.clone());
    id
}

/// What a heading's text adds to its slug for one character: a space becomes `-`, `-`, `_` and
/// any character that is neither ASCII punctuation nor whitespace is lowercased, and the rest is
/// dropped.
pub open spec fn slug_char(c: char) -> Seq<char> {
    if c == ' ' {
        seq!['-']
    } else if c == '-' || c == '_' || !(is_ascii_punctuation(c) || is_whitespace(c)) {
        lowercase(c)
    } else {
        Seq::empty()
    }
}

/// The slug of a piece of heading text.
pub open spec fn slug_text(t: Seq<char>) -> Seq<char>
    decreases t.len(),
{
    if t.len() == 0 {
        Seq::empty()
    } else {
        slug_text(t.drop_last()) + slug_char(t.last())
    }
}

/// The slug of a heading's text is the slugs of its parts, in order, and each character adds:
/// a space, `-`; a character that is neither ASCII punctuation nor whitespace (an ASCII letter or
/// digit among them), or `-` or `_`, its lowercase mapping; any other punctuation or whitespace,
/// nothing.
pub proof fn lemma_slug_keeps_word_characters(a: Seq<char>, b: Seq<char>, c: char)
    ensures
        slug_text(a + b) == slug_text(a) + slug_text(b),
        c == ' ' ==> slug_text(seq![c]) == seq!['-'],
        !is_ascii_punctuation(c) && !is_whitespace(c) ==> slug_text(seq![c]) == lowercase(c),
        ('0' <= c <= '9' || 'a' <= c <= 'z' || 'A' <= c <= 'Z' || c == '-' || c == '_')
            ==> slug_text(seq![c]) == lowercase(c),
        c != ' ' && c != '-' && c != '_' && (is_ascii_punctuation(c) || is_whitespace(c))
            ==> slug_text(seq![c]) == Seq::<char>::empty(),
    decreases b.len(),
{
    assert(seq![c].drop_last() =~= Seq::<char>::empty());
    assert(seq![c].last() == c);
    assert(slug_text(Seq::<char>::empty()) == Seq::<char>::empty());
    assert(slug_text(seq![c]) =~= slug_char(c));
    if b.len() == 0 {
        assert(a + b =~= a);
        assert(slug_text(a) + slug_text(b) =~= slug_text(a));
    } else {
        lemma_slug_keeps_word_characters(a, b.drop_last(), c);
        assert((a + b).drop_last() =~= a + b.drop_last());
        assert((a + b).last() == b.last());
        assert(slug_text(a + b) =~= slug_text(a) + slug_text(b));
    }
}

/// The lowercase mapping of `c`, as `char::to_lowercase` yields it.
pub uninterp spec fn lowercase(c: char) -> Seq<char>;

/// `char::to_lowercase`, collected: the lowercase mapping of `c`, named `lowercase`.
#[verifier::external_body]
fn to_lowercase(c: char) -> (res: Vec<char>)
    ensures
        res@ == lowercase(c),
{
    c.to_lowercase().collect()
}

/// Appends the slug of `text` to `slug`.
pub fn push_slug(slug: &mut String, text: &str)
    ensures
        final(slug)@ == old(slug)@ + slug_text(text@),
{
    let cs = crate::common::chars_of(text);
    let mut i: usize = 0;
    while i < cs.len()
        invariant
            0 <= i <= cs@.len(),
            cs@ == text@,
            slug@ == old(slug)@ + slug_text(cs@.take(i as int)),
        decreases cs@.len() - i,
    {
        let c = cs[i];
        let ghost before = slug@;
        if c == ' ' {
            slug.push('-');
        } else if c == '-' || c == '_' || !(crate::common::ascii_punctuation(c)
            || crate::common::whitespace(c)) {
            let lower = to_lowercase(c);
            let mut j: usize = 0;
            while j < lower.len()
                invariant
                    0 <= j <= lower@.len(),
                    slug@ == before + lower@.take(j as int),
                decreases lower@.len() - j,
            {
                slug.push(lower[j]);
                assert(lower@.take(j + 1) =~= lower@.take(j as int).push(lower@[j as int]));
                j += 1;
            }
            assert(lower@.take(j as int) =~= lower@);
        }
        proof {
            assert(cs@.take(i + 1).drop_last() =~= cs@.take(i as int));
            assert(slug@ =~= old(slug)@ + slug_text(cs@.take(i + 1)));
        }
        i += 1;
    }
    assert(cs@.take(i as int) =~= cs@);
}

} // verus!
