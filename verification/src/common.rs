//! Character-level building blocks shared by the rest of the library: the contracts of the few
//! `String` methods used, character classes, scanning and number formatting.
use vstd::prelude::*;
use vstd::utf8::{decode_utf8, valid_utf8};

verus! {

pub assume_specification[ String::push ](s: &mut String, ch: char)
    ensures
        final(s)@ == old(s)@.push(ch),
;

pub assume_specification[ String::push_str ](s: &mut String, string: &str)
    ensures
        final(s)@ == old(s)@ + string@,
;

/// `String::from_utf8`: the string that `bytes` encode when they are valid UTF-8, and `None`
/// otherwise. std documents that it fails exactly on invalid UTF-8 and otherwise holds those bytes.
#[verifier::external_body]
pub(crate) fn string_from_utf8(bytes: Vec<u8>) -> (res: Option<String>)
    ensures
        res is Some <==> valid_utf8(bytes@),
        res matches Some(s) ==> s@ == decode_utf8(bytes@),
{
    match String::from_utf8(bytes) {
        Ok(s) => Some(s),
        Err(_) => None,
    }
}

/// The characters of `s`, for constant-time indexing.
pub fn chars_of(s: &str) -> (v: Vec<char>)
    ensures
        v@ == s@,
{
    let mut v: Vec<char> = Vec::new();
    proof {
        assert(s@.take(s@.len() as int) =~= s@);
    }
    for c in it: s.chars()
        invariant
            v@ == it.seq().take(it.index() as int),
            it.seq() == s@,
            s@.take(s@.len() as int) == s@,
        ensures
            v@ == s@,
    {
        proof {
            assert(it.seq().take(it.index() + 1) =~= it.seq().take(it.index() as int).push(c));
        }
        v.push(c);
    }
    v
}

/// A string holding `cs[from..to]`.
pub fn string_of(cs: &Vec<char>, from: usize, to: usize) -> (s: String)
    requires
        from <= to <= cs@.len(),
    ensures
        s@ == cs@.subrange(from as int, to as int),
{
    let mut s = String::new();
    let mut i = from;
    while i < to
        invariant
            from <= i <= to <= cs@.len(),
            s@ == cs@.subrange(from as int, i as int),
        decreases to - i,
    {
        proof {
            assert(cs@.subrange(from as int, i + 1) =~= cs@.subrange(from as int, i as int).push(
                cs@[i as int],
            ));
        }
        s.push(cs[i]);
        i += 1;
    }
    s
}

/// Appends `cs[from..to]` to `out`.
pub fn push_chars(out: &mut String, cs: &Vec<char>, from: usize, to: usize)
    requires
        from <= to <= cs@.len(),
    ensures
        final(out)@ == old(out)@ + cs@.subrange(from as int, to as int),
{
    let mut i = from;
    while i < to
        invariant
            from <= i <= to <= cs@.len(),
            out@ == old(out)@ + cs@.subrange(from as int, i as int),
        decreases to - i,
    {
        proof {
            assert(cs@.subrange(from as int, i + 1) =~= cs@.subrange(from as int, i as int).push(
                cs@[i as int],
            ));
        }
        out.push(cs[i]);
        i += 1;
    }
    proof {
        assert(old(out)@ + cs@.subrange(from as int, i as int) =~= old(out)@ + cs@.subrange(
            from as int,
            to as int,
        ));
    }
}

/// Index of the first `c` in `s`, or the length of `s` when there is none.
pub open spec fn index_of(s: Seq<char>, c: char) -> nat
    decreases s.len(),
{
    if s.len() == 0 {
        0
    } else if s[0] == c {
        0
    } else {
        1 + index_of(s.drop_first(), c)
    }
}

/// The first `c` in `s` is at `n` exactly when nothing before `n` is a `c`.
pub proof fn lemma_index_of(s: Seq<char>, c: char, n: int)
    requires
        0 <= n <= s.len(),
        forall|j: int| 0 <= j < n ==> s[j] != c,
        n == s.len() || s[n] == c,
    ensures
        index_of(s, c) == n,
    decreases s.len(),
{
    if s.len() > 0 && n > 0 {
        lemma_index_of(s.drop_first(), c, n - 1);
    }
}

/// What `index_of` gives: every character before it differs from `c`, and it is either the length
/// or the place of a `c`.
pub proof fn lemma_index_of_facts(s: Seq<char>, c: char)
    ensures
        index_of(s, c) <= s.len(),
        forall|j: int| 0 <= j < index_of(s, c) ==> s[j] != c,
        index_of(s, c) == s.len() || s[index_of(s, c) as int] == c,
    decreases s.len(),
{
    if s.len() > 0 && s[0] != c {
        lemma_index_of_facts(s.drop_first(), c);
        assert forall|j: int| 0 <= j < index_of(s, c) implies s[j] != c by {
            if j > 0 {
                assert(s[j] == s.drop_first()[j - 1]);
            }
        }
    }
}

/// Finds the first `c` in `cs[from..to]`, giving `to` when there is none.
pub fn find_char(cs: &Vec<char>, from: usize, to: usize, c: char) -> (i: usize)
    requires
        from <= to <= cs@.len(),
    ensures
        i == from + index_of(cs@.subrange(from as int, to as int), c),
        from <= i <= to,
{
    let mut i = from;
    while i < to
        invariant
            from <= i <= to <= cs@.len(),
            forall|j: int| from <= j < i ==> cs@[j] != c,
        ensures
            from <= i <= to,
            forall|j: int| from <= j < i ==> cs@[j] != c,
            i == to || cs@[i as int] == c,
        decreases to - i,
    {
        if cs[i] == c {
            break;
        }
        i += 1;
    }
    proof {
        lemma_index_of(cs@.subrange(from as int, to as int), c, i - from);
    }
    i
}

/// Unicode `White_Space`, the characters that `str::trim` removes.
pub open spec fn is_whitespace(c: char) -> bool {
    ||| '\u{9}' <= c <= '\u{d}'
    ||| c == ' '
    ||| c == '\u{85}'
    ||| c == '\u{a0}'
    ||| c == '\u{1680}'
    ||| '\u{2000}' <= c <= '\u{200a}'
    ||| c == '\u{2028}'
    ||| c == '\u{2029}'
    ||| c == '\u{202f}'
    ||| c == '\u{205f}'
    ||| c == '\u{3000}'
}

/// Whether `c` is whitespace.
pub fn whitespace(c: char) -> (b: bool)
    ensures
        b == is_whitespace(c),
{
    ('\u{9}' <= c && c <= '\u{d}') || c == ' ' || c == '\u{85}' || c == '\u{a0}' || c == '\u{1680}'
        || ('\u{2000}' <= c && c <= '\u{200a}') || c == '\u{2028}' || c == '\u{2029}' || c
        == '\u{202f}' || c == '\u{205f}' || c == '\u{3000}'
}

/// ASCII punctuation: ``!"#$%&'()*+,-./:;<=>?@[\]^_`{|}~``.
pub open spec fn is_ascii_punctuation(c: char) -> bool {
    ||| '!' <= c <= '/'
    ||| ':' <= c <= '@'
    ||| '[' <= c <= '`'
    ||| '{' <= c <= '~'
}

/// Whether `c` is ASCII punctuation.
pub fn ascii_punctuation(c: char) -> (b: bool)
    ensures
        b == is_ascii_punctuation(c),
{
    ('!' <= c && c <= '/') || (':' <= c && c <= '@') || ('[' <= c && c <= '`') || ('{' <= c && c
        <= '~')
}

/// `c` with an ASCII capital letter made small, as `char::to_ascii_lowercase` does.
pub open spec fn ascii_lower(c: char) -> char {
    if 'A' <= c <= 'Z' {
        ((c as u8) + 32) as u8 as char
    } else {
        c
    }
}

/// `c` with an ASCII capital letter made small.
pub fn to_ascii_lower(c: char) -> (r: char)
    ensures
        r == ascii_lower(c),
{
    if 'A' <= c && c <= 'Z' {
        let u: u8 = (c as u8) + 32;
        u as char
    } else {
        c
    }
}

/// Equality of two character sequences ignoring the case of ASCII letters, as
/// `str::eq_ignore_ascii_case` compares.
pub open spec fn eq_ignore_ascii_case(a: Seq<char>, b: Seq<char>) -> bool {
    &&& a.len() == b.len()
    &&& forall|i: int| 0 <= i < a.len() ==> ascii_lower(#[trigger] a[i]) == ascii_lower(b[i])
}

/// Compares `cs[from..to]` with `word`, ignoring the case of ASCII letters.
pub fn range_eq_ignore_ascii_case(cs: &Vec<char>, from: usize, to: usize, word: &Vec<char>) -> (b:
    bool)
    requires
        from <= to <= cs@.len(),
    ensures
        b == eq_ignore_ascii_case(cs@.subrange(from as int, to as int), word@),
{
    if to - from != word.len() {
        return false;
    }
    let mut i: usize = 0;
    while i < word.len()
        invariant
            from <= to <= cs@.len(),
            to - from == word@.len(),
            0 <= i <= word@.len(),
            forall|j: int|
                0 <= j < i ==> ascii_lower(#[trigger] cs@[from + j]) == ascii_lower(word@[j]),
        decreases word@.len() - i,
    {
        if to_ascii_lower(cs[from + i]) != to_ascii_lower(word[i]) {
            assert(ascii_lower(cs@.subrange(from as int, to as int)[i as int]) != ascii_lower(
                word@[i as int],
            ));
            return false;
        }
        i += 1;
    }
    assert forall|j: int| 0 <= j < cs@.subrange(from as int, to as int).len() implies ascii_lower(
        #[trigger] cs@.subrange(from as int, to as int)[j],
    ) == ascii_lower(word@[j]) by {
        assert(cs@.subrange(from as int, to as int)[j] == cs@[from + j]);
    }
    true
}

/// Compares `cs[from..to]` with `word`.
pub fn range_eq(cs: &Vec<char>, from: usize, to: usize, word: &Vec<char>) -> (b: bool)
    requires
        from <= to <= cs@.len(),
    ensures
        b == (cs@.subrange(from as int, to as int) == word@),
{
    if to - from != word.len() {
        return false;
    }
    let mut i: usize = 0;
    while i < word.len()
        invariant
            from <= to <= cs@.len(),
            to - from == word@.len(),
            0 <= i <= word@.len(),
            forall|j: int| 0 <= j < i ==> #[trigger] cs@[from + j] == word@[j],
        decreases word@.len() - i,
    {
        if cs[from + i] != word[i] {
            assert(cs@.subrange(from as int, to as int)[i as int] != word@[i as int]);
            return false;
        }
        i += 1;
    }
    assert(cs@.subrange(from as int, to as int) =~= word@) by {
        assert forall|j: int| 0 <= j < word@.len() implies cs@.subrange(from as int, to as int)[j]
            == word@[j] by {
            assert(cs@[from + j] == word@[j]);
        }
    }
    true
}

/// The number of whitespace characters that `s` starts with.
pub open spec fn leading_ws(s: Seq<char>) -> nat
    decreases s.len(),
{
    if s.len() == 0 {
        0
    } else if is_whitespace(s[0]) {
        1 + leading_ws(s.drop_first())
    } else {
        0
    }
}

/// The number of whitespace characters that `s` ends with.
pub open spec fn trailing_ws(s: Seq<char>) -> nat
    decreases s.len(),
{
    if s.len() == 0 {
        0
    } else if is_whitespace(s.last()) {
        1 + trailing_ws(s.drop_last())
    } else {
        0
    }
}

/// `s` without leading and trailing whitespace, as `str::trim` gives it.
pub open spec fn trimmed(s: Seq<char>) -> Seq<char> {
    let r = s.skip(leading_ws(s) as int);
    r.take(r.len() - trailing_ws(r))
}

/// `leading_ws` is the length of the run of whitespace that `s` starts with.
pub proof fn lemma_leading_ws(s: Seq<char>, n: int)
    requires
        0 <= n <= s.len(),
        forall|j: int| 0 <= j < n ==> is_whitespace(s[j]),
        n == s.len() || !is_whitespace(s[n]),
    ensures
        leading_ws(s) == n,
    decreases s.len(),
{
    if s.len() > 0 && n > 0 {
        lemma_leading_ws(s.drop_first(), n - 1);
    }
}

proof fn lemma_trailing_ws(s: Seq<char>, n: int)
    requires
        0 <= n <= s.len(),
        forall|j: int| s.len() - n <= j < s.len() ==> is_whitespace(s[j]),
        n == s.len() || !is_whitespace(s[s.len() - n - 1]),
    ensures
        trailing_ws(s) == n,
    decreases s.len(),
{
    if s.len() > 0 && n > 0 {
        lemma_trailing_ws(s.drop_last(), n - 1);
    }
}

/// The bounds of `cs[from..to]` with its leading and trailing whitespace left out.
pub fn trim_range(cs: &Vec<char>, from: usize, to: usize) -> (r: (usize, usize))
    requires
        from <= to <= cs@.len(),
    ensures
        from <= r.0 <= r.1 <= to,
        cs@.subrange(r.0 as int, r.1 as int) == trimmed(cs@.subrange(from as int, to as int)),
{
    let mut a = from;
    while a < to && whitespace(cs[a])
        invariant
            from <= a <= to <= cs@.len(),
            forall|j: int| from <= j < a ==> is_whitespace(cs@[j]),
        decreases to - a,
    {
        a += 1;
    }
    let mut b = to;
    while b > a && whitespace(cs[b - 1])
        invariant
            from <= a <= b <= to <= cs@.len(),
            forall|j: int| b <= j < to ==> is_whitespace(cs@[j]),
        decreases b - a,
    {
        b -= 1;
    }
    proof {
        let s = cs@.subrange(from as int, to as int);
        lemma_leading_ws(s, a - from);
        let r = s.skip(a - from);
        assert(r =~= cs@.subrange(a as int, to as int));
        lemma_trailing_ws(r, to - b);
        assert(r.take(r.len() - (to - b)) =~= cs@.subrange(a as int, b as int));
    }
    (a, b)
}

/// The decimal digit for `d < 10`.
pub open spec fn digit_char(d: nat) -> char {
    ((48 + d) as u8) as char
}

/// `n` written in decimal, as `format!("{n}")` writes it.
pub open spec fn decimal(n: nat) -> Seq<char>
    decreases n,
{
    if n < 10 {
        seq![digit_char(n)]
    } else {
        decimal(n / 10).push(digit_char(n % 10))
    }
}

/// Appends `n` written in decimal to `out`.
pub fn push_decimal(out: &mut String, n: usize)
    ensures
        final(out)@ == old(out)@ + decimal(n as nat),
    decreases n,
{
    if n >= 10 {
        push_decimal(out, n / 10);
    }
    let d: u8 = (n % 10) as u8;
    let c: char = (48 + d) as char;
    out.push(c);
    proof {
        assert(old(out)@ + decimal(n as nat) =~= if n >= 10 {
            old(out)@ + decimal((n / 10) as nat) + seq![c]
        } else {
            old(out)@ + seq![c]
        });
    }
}

/// The lowercase hexadecimal digit for `d < 16`.
pub open spec fn hex_lower_char(d: nat) -> char {
    if d < 10 {
        ((48 + d) as u8) as char
    } else {
        ((87 + d) as u8) as char
    }
}

/// The last `k` hexadecimal digits of `x`, most significant first, zero-padded.
pub open spec fn hex_digits(x: nat, k: nat) -> Seq<char>
    decreases k,
{
    if k == 0 {
        seq![]
    } else {
        hex_digits(x / 16, (k - 1) as nat).push(hex_lower_char(x % 16))
    }
}

/// Appends the last `k` hexadecimal digits of `x`, as `format!("{x:016x}")` writes them for
/// `k == 16`.
pub fn push_hex(out: &mut String, x: u64, k: u32)
    ensures
        final(out)@ == old(out)@ + hex_digits(x as nat, k as nat),
    decreases k,
{
    if k == 0 {
        assert(old(out)@ + hex_digits(x as nat, 0) =~= old(out)@);
        return ;
    }
    push_hex(out, x / 16, k - 1);
    let d: u8 = (x % 16) as u8;
    let c: char = if d < 10 {
        (48 + d) as char
    } else {
        (87 + d) as char
    };
    out.push(c);
    proof {
        assert(old(out)@ + hex_digits(x as nat, k as nat) =~= old(out)@ + hex_digits(
            (x / 16) as nat,
            (k - 1) as nat,
        ) + seq![c]);
    }
}

} // verus!
