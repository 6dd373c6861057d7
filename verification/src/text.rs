//! Text that goes into HTML and comes in with URLs and headers: escaping, the path and query of a
//! URL, entity tags, numbers and percent-encoding.
use vstd::prelude::*;
use crate::common::{
    chars_of, find_char, index_of, is_whitespace, leading_ws, lemma_index_of, lemma_index_of_facts,
    range_eq, string_from_utf8, trailing_ws, trim_range, trimmed,
};
use vstd::utf8::{
    decode_utf8, encode_utf8, encode_utf8_decode_utf8, encode_utf8_valid_utf8, is_ascii_chars,
    is_ascii_chars_encode_utf8, valid_utf8,
};

verus! {

/// What a single character becomes in HTML text or an attribute value.
pub open spec fn escape_char(c: char) -> Seq<char> {
    if c == '&' {
        seq!['&', 'a', 'm', 'p', ';']
    } else if c == '<' {
        seq!['&', 'l', 't', ';']
    } else if c == '>' {
        seq!['&', 'g', 't', ';']
    } else if c == '"' {
        seq!['&', 'q', 'u', 'o', 't', ';']
    } else {
        seq![c]
    }
}

/// `s` with `&`, `<`, `>` and `"` replaced by their entities.
pub open spec fn escaped(s: Seq<char>) -> Seq<char>
    decreases s.len(),
{
    if s.len() == 0 {
        seq![]
    } else {
        escaped(s.drop_last()) + escape_char(s.last())
    }
}

/// Appends what `c` becomes in HTML.
fn push_escaped(out: &mut String, c: char)
    ensures
        final(out)@ == old(out)@ + escape_char(c),
{
    if c == '&' {
        out.push('&'); out.push('a'); out.push('m'); out.push('p'); out.push(';');
    } else if c == '<' {
        out.push('&'); out.push('l'); out.push('t'); out.push(';');
    } else if c == '>' {
        out.push('&'); out.push('g'); out.push('t'); out.push(';');
    } else if c == '"' {
        out.push('&'); out.push('q'); out.push('u'); out.push('o'); out.push('t'); out.push(';');
    } else {
        out.push(c);
    }
}

/// Escapes `s` for use as HTML text or inside a double-quoted attribute value.
pub fn escape_html(s: &str) -> (res: String)
    ensures
        res@ == escaped(s@),
{
    let mut out = String::new();
    proof {
        assert(s@.take(s@.len() as int) =~= s@);
    }
    for c in it: s.chars()
        invariant
            out@ == escaped(it.seq().take(it.index() as int)),
            it.seq() == s@,
            s@.take(s@.len() as int) == s@,
        ensures
            out@ == escaped(s@),
    {
        proof {
            assert(it.seq().take(it.index() + 1).drop_last() == it.seq().take(it.index() as int));
        }
        push_escaped(&mut out, c);
    }
    out
}

} // verus!

verus! {

/// The end of the path part of a URL: the first `?` or `#`, or the end.
pub open spec fn path_end(url: Seq<char>) -> nat {
    if index_of(url, '?') <= index_of(url, '#') {
        index_of(url, '?')
    } else {
        index_of(url, '#')
    }
}

/// The path of a request URL, without its query string and fragment.
pub fn url_path(url: &str) -> (res: &str)
    ensures
        res@ == url@.take(path_end(url@) as int),
{
    let cs = chars_of(url);
    let q = find_char(&cs, 0, cs.len(), '?');
    let h = find_char(&cs, 0, cs.len(), '#');
    proof {
        assert(cs@.subrange(0, cs@.len() as int) =~= url@);
        lemma_index_of_facts(url@, '?');
        lemma_index_of_facts(url@, '#');
    }
    let end = if q <= h {
        q
    } else {
        h
    };
    url.substring_char(0, end)
}

/// The value of the first `name=` pair in `query`, a `&`-separated list.
pub open spec fn find_param(query: Seq<char>, name: Seq<char>) -> Option<Seq<char>>
    decreases query.len(),
{
    let e = index_of(query, '&') as int;
    let pair = query.take(e);
    if pair.len() > name.len() && pair.take(name.len() as int) == name && pair[name.len() as int]
        == '=' {
        Some(pair.skip(name.len() + 1int))
    } else if e >= query.len() {
        None
    } else {
        find_param(query.skip(e + 1), name)
    }
}

/// The undecoded value of the first `name` parameter in the query string of `url`: the text after
/// the first `?`, up to the next `#`.
pub open spec fn query_value(url: Seq<char>, name: Seq<char>) -> Option<Seq<char>> {
    let q = index_of(url, '?') as int;
    if q >= url.len() {
        None
    } else {
        let rest = url.skip(q + 1);
        find_param(rest.take(index_of(rest, '#') as int), name)
    }
}

/// Returns the undecoded value of the first `name` parameter in the query string of `url`.
pub fn query_param<'a>(url: &'a str, name: &str) -> (res: Option<&'a str>)
    ensures
        match res {
            Some(v) => query_value(url@, name@) == Some(v@),
            None => query_value(url@, name@) is None,
        },
{
    let cs = chars_of(url);
    let nm = chars_of(name);
    let len = cs.len();
    let q = find_char(&cs, 0, len, '?');
    proof {
        assert(cs@.subrange(0, len as int) =~= url@);
        lemma_index_of_facts(url@, '?');
    }
    if q >= len {
        return None;
    }
    let end = find_char(&cs, q + 1, len, '#');
    let ghost rest = url@.skip(q + 1);
    proof {
        assert(cs@.subrange(q + 1, len as int) =~= rest);
        lemma_index_of_facts(rest, '#');
        assert(rest.take(index_of(rest, '#') as int) =~= cs@.subrange(q + 1, end as int));
    }
    let mut p = q + 1;
    while p <= end
        invariant
            q + 1 <= p <= end + 1,
            end <= len == cs@.len(),
            cs@ == url@,
            nm@ == name@,
            query_value(url@, name@) == if p > end {
                None
            } else {
                find_param(cs@.subrange(p as int, end as int), name@)
            },
        decreases end + 1 - p,
    {
        let e = find_char(&cs, p, end, '&');
        let ghost query = cs@.subrange(p as int, end as int);
        proof {
            lemma_index_of_facts(query, '&');
            assert(query.take(e - p) =~= cs@.subrange(p as int, e as int));
        }
        let n = nm.len();
        if e - p > n && range_eq(&cs, p, p + n, &nm) && cs[p + n] == '=' {
            proof {
                assert(query.take(e - p).take(n as int) =~= cs@.subrange(p as int, (p + n) as int));
                assert(query.take(e - p).skip(n + 1) =~= cs@.subrange(p + n + 1, e as int));
            }
            return Some(url.substring_char(p + n + 1, e));
        }
        proof {
            if e - p > n && query.take(e - p).take(n as int) == name@ {
                assert(query.take(e - p).take(n as int) =~= cs@.subrange(p as int, (p + n) as int));
            }
            if e < end {
                assert(query.skip(e - p + 1) =~= cs@.subrange(e + 1, end as int));
            }
        }
        if e >= end {
            return None;
        }
        p = e + 1;
    }
    None
}

/// An entity tag from an `If-None-Match` list matches `etag`: it is `*`, or equal to it with an
/// optional weakness prefix `W/`.
pub open spec fn tag_matches(tag: Seq<char>, etag: Seq<char>) -> bool {
    ||| tag == seq!['*']
    ||| (if tag.len() >= 2 && tag[0] == 'W' && tag[1] == '/' {
        tag.skip(2)
    } else {
        tag
    }) == etag
}

/// Some entry of the comma-separated list `value`, trimmed, matches `etag`.
pub open spec fn list_matches(value: Seq<char>, etag: Seq<char>) -> bool
    decreases value.len(),
{
    let e = index_of(value, ',') as int;
    ||| tag_matches(trimmed(value.take(e)), etag)
    ||| (e < value.len() && list_matches(value.skip(e + 1), etag))
}

/// A list joined at a comma matches exactly when one of its two parts does: the entries of
/// `a`, then those of `b`.
pub proof fn lemma_list_joined_at_comma(a: Seq<char>, b: Seq<char>, etag: Seq<char>)
    ensures
        list_matches(a + seq![','] + b, etag) == (list_matches(a, etag) || list_matches(b, etag)),
    decreases a.len(),
{
    let v = a + seq![','] + b;
    let e = index_of(a, ',') as int;
    lemma_index_of_facts(a, ',');
    assert forall|j: int| 0 <= j < e implies v[j] != ',' by {
        assert(v[j] == a[j]);
    }
    if e < a.len() {
        assert(v[e] == a[e]);
        lemma_index_of(v, ',', e);
        assert(v.take(e) =~= a.take(e));
        assert(v.skip(e + 1) =~= a.skip(e + 1) + seq![','] + b);
        lemma_list_joined_at_comma(a.skip(e + 1), b, etag);
    } else {
        assert(v[e] == ',');
        lemma_index_of(v, ',', e);
        assert(v.take(e) =~= a);
        assert(a.take(e) =~= a);
        assert(v.skip(e + 1) =~= b);
    }
}

/// An entity tag that holds no comma, is trimmed and is not marked weak matches itself in an
/// `If-None-Match` list, sent as is or marked weak with spaces round it.
pub proof fn lemma_tag_matches_itself(etag: Seq<char>)
    requires
        forall|j: int| 0 <= j < etag.len() ==> etag[j] != ',',
        trimmed(etag) == etag,
        !(etag.len() >= 2 && etag[0] == 'W' && etag[1] == '/'),
    ensures
        list_matches(etag, etag),
        list_matches(seq![' ', 'W', '/'] + etag + seq![' '], etag),
{
    lemma_index_of(etag, ',', etag.len() as int);
    assert(etag.take(etag.len() as int) =~= etag);
    assert(tag_matches(etag, etag));
    let w = seq![' ', 'W', '/'] + etag + seq![' '];
    assert forall|j: int| 0 <= j < w.len() implies w[j] != ',' by {
        if 3 <= j < w.len() - 1 {
            assert(w[j] == etag[j - 3]);
        }
    }
    lemma_index_of(w, ',', w.len() as int);
    assert(w.take(w.len() as int) =~= w);
    lemma_trimmed_ends(etag);
    assert(w.drop_first()[0] == 'W');
    assert(leading_ws(w.drop_first()) == 0);
    assert(leading_ws(w) == 1);
    let r = w.skip(1);
    let inner = seq!['W', '/'] + etag;
    assert(r.drop_last() =~= inner);
    assert(inner.last() == if etag.len() > 0 {
        etag.last()
    } else {
        '/'
    });
    assert(trailing_ws(inner) == 0);
    assert(trailing_ws(r) == 1);
    assert(trimmed(w) =~= inner);
    assert(inner.skip(2) =~= etag);
    assert(tag_matches(inner, etag));
}

/// A trimmed text ends with no whitespace.
proof fn lemma_trimmed_ends(s: Seq<char>)
    requires
        trimmed(s) == s,
    ensures
        s.len() > 0 ==> !is_whitespace(s.last()),
{
    lemma_ws_bounds(s);
    let r = s.skip(leading_ws(s) as int);
    lemma_ws_bounds(r);
    assert(trimmed(s).len() == s.len() - leading_ws(s) - trailing_ws(r));
    assert(leading_ws(s) == 0);
    assert(r =~= s);
    assert(trailing_ws(s) == 0);
}

proof fn lemma_ws_bounds(s: Seq<char>)
    ensures
        leading_ws(s) <= s.len(),
        trailing_ws(s) <= s.len(),
    decreases s.len(),
{
    if s.len() > 0 {
        lemma_ws_bounds(s.drop_first());
        lemma_ws_bounds(s.drop_last());
    }
}

/// Checks an `If-None-Match` header value, a comma-separated list of entity tags or `*`.
pub fn etag_matches(if_none_match: &str, etag: &str) -> (res: bool)
    ensures
        res == list_matches(if_none_match@, etag@),
{
    let cs = chars_of(if_none_match);
    let tag = chars_of(etag);
    let len = cs.len();
    let mut star: Vec<char> = Vec::new();
    star.push('*');
    assert(star@ =~= seq!['*']);
    let mut p: usize = 0;
    assert(cs@.subrange(0, len as int) =~= cs@);
    while p <= len
        invariant
            p <= len + 1,
            len == cs@.len(),
            cs@ == if_none_match@,
            tag@ == etag@,
            star@ == seq!['*'],
            p <= len ==> list_matches(if_none_match@, etag@) == list_matches(
                cs@.subrange(p as int, len as int),
                etag@,
            ),
            p > len ==> !list_matches(if_none_match@, etag@),
        decreases len + 1 - p,
    {
        let e = find_char(&cs, p, len, ',');
        let ghost value = cs@.subrange(p as int, len as int);
        proof {
            lemma_index_of_facts(value, ',');
            assert(value.take(e - p) =~= cs@.subrange(p as int, e as int));
        }
        let (a, b) = trim_range(&cs, p, e);
        let ghost t = cs@.subrange(a as int, b as int);
        let weak = b - a >= 2 && cs[a] == 'W' && cs[a + 1] == '/';
        let start = if weak {
            a + 2
        } else {
            a
        };
        proof {
            if weak {
                assert(t.skip(2) =~= cs@.subrange(start as int, b as int));
            }
        }
        if range_eq(&cs, a, b, &star) || range_eq(&cs, start, b, &tag) {
            return true;
        }
        proof {
            if e < len {
                assert(value.skip(e - p + 1) =~= cs@.subrange(e + 1, len as int));
            }
        }
        if e >= len {
            return false;
        }
        p = e + 1;
    }
    false
}

/// `s` holds only ASCII digits.
pub open spec fn all_digits(s: Seq<char>) -> bool {
    forall|i: int| 0 <= i < s.len() ==> '0' <= #[trigger] s[i] <= '9'
}

/// The number that the ASCII digits `s` spell.
pub open spec fn digits_value(s: Seq<char>) -> nat
    decreases s.len(),
{
    if s.len() == 0 {
        0
    } else {
        10 * digits_value(s.drop_last()) + (s.last() as nat - 48) as nat
    }
}

/// What `str::parse::<usize>` gives: an optional `+` followed by one or more ASCII digits, whose
/// value fits in a `usize`.
pub open spec fn parsed_usize(s: Seq<char>) -> Option<usize> {
    let d = if s.len() > 0 && s[0] == '+' {
        s.skip(1)
    } else {
        s
    };
    if d.len() > 0 && all_digits(d) && digits_value(d) <= usize::MAX {
        Some(digits_value(d) as usize)
    } else {
        None
    }
}

proof fn lemma_digits_value_grows(s: Seq<char>, k: int)
    requires
        0 <= k <= s.len(),
    ensures
        digits_value(s.take(k)) <= digits_value(s),
    decreases s.len(),
{
    if k < s.len() {
        assert(s.drop_last().take(k) =~= s.take(k));
        lemma_digits_value_grows(s.drop_last(), k);
    } else {
        assert(s.take(k) =~= s);
    }
}

/// `str::parse::<usize>` reads decimal digits: one digit is its value, a digit appended to a
/// number makes it ten times larger plus that digit (or too large, and no number), a character
/// that is not a digit makes no number, and a leading `+` changes nothing.
pub proof fn lemma_parse_reads_digits(s: Seq<char>, c: char)
    ensures
        '0' <= c <= '9' ==> parsed_usize(seq![c]) == Some((c as int - 48) as usize),
        '0' <= c <= '9' && parsed_usize(s) is Some ==> parsed_usize(s.push(c)) == if 10
            * parsed_usize(s)->0 + (c as int - 48) <= usize::MAX {
            Some((10 * parsed_usize(s)->0 + (c as int - 48)) as usize)
        } else {
            None::<usize>
        },
        !('0' <= c <= '9') ==> parsed_usize(s.push(c)) is None,
        s.len() > 0 && s[0] != '+' ==> parsed_usize(seq!['+'] + s) == parsed_usize(s),
        parsed_usize(Seq::<char>::empty()) is None,
        parsed_usize(seq!['+']) is None,
{
    assert(seq!['+'].skip(1) =~= Seq::<char>::empty());
    let t = s.push(c);
    let d = if s.len() > 0 && s[0] == '+' {
        s.skip(1)
    } else {
        s
    };
    let dt = if t.len() > 0 && t[0] == '+' {
        t.skip(1)
    } else {
        t
    };
    let one = seq![c];
    assert(one.drop_last() =~= Seq::<char>::empty());
    assert(one[0] == c && one.last() == c);
    if '0' <= c <= '9' {
        assert(digits_value(one) == 10 * digits_value(Seq::<char>::empty()) + (c as nat - 48) as nat);
    }
    if s.len() > 0 || c != '+' {
        if s.len() > 0 {
            assert(t[0] == s[0]);
        }
        assert(dt =~= d.push(c));
        assert(dt.drop_last() =~= d);
        assert(dt.last() == c);
    } else {
        assert(dt.len() == 0);
    }
    if '0' <= c <= '9' && parsed_usize(s) is Some {
        assert forall|i: int| 0 <= i < dt.len() implies '0' <= #[trigger] dt[i] <= '9' by {
            if i < d.len() {
                assert(dt[i] == d[i]);
            }
        }
    }
    if !('0' <= c <= '9') && dt.len() > 0 {
        assert(!('0' <= dt[dt.len() - 1] <= '9'));
    }
    assert((seq!['+'] + s).skip(1) =~= s);
}

/// Parses a decimal `usize` the way `str::parse` does.
pub fn parse_usize(s: &str) -> (res: Option<usize>)
    ensures
        res == parsed_usize(s@),
{
    let cs = chars_of(s);
    let len = cs.len();
    let start: usize = if len > 0 && cs[0] == '+' {
        1
    } else {
        0
    };
    let ghost d = if s@.len() > 0 && s@[0] == '+' {
        s@.skip(1)
    } else {
        s@
    };
    assert(d =~= cs@.subrange(start as int, len as int));
    if start >= len {
        return None;
    }
    let mut v: usize = 0;
    let mut i = start;
    while i < len
        invariant
            start <= i <= len == cs@.len(),
            cs@ == s@,
            d == cs@.subrange(start as int, len as int),
            d == if s@.len() > 0 && s@[0] == '+' {
                s@.skip(1)
            } else {
                s@
            },
            d.len() > 0,
            all_digits(cs@.subrange(start as int, i as int)),
            v as nat == digits_value(cs@.subrange(start as int, i as int)),
        decreases len - i,
    {
        let c = cs[i];
        let ghost before = cs@.subrange(start as int, i as int);
        assert(cs@.subrange(start as int, i + 1).drop_last() =~= before);
        if c < '0' || c > '9' {
            assert(!('0' <= d[i - start] <= '9'));
            assert(!all_digits(d));
            return None;
        }
        let dig: usize = ((c as u32) - 48) as usize;
        if v > (usize::MAX - dig) / 10 {
            proof {
                let m = usize::MAX as int;
                assert(10 * v + dig > m) by (nonlinear_arith)
                    requires
                        v > (m - dig) / 10,
                        0 <= dig < 10,
                ;
                assert(cs@.subrange(start as int, i + 1).last() == c);
                assert(digits_value(cs@.subrange(start as int, i + 1)) == 10 * v + dig);
                assert(d.take(i + 1 - start) =~= cs@.subrange(start as int, i + 1));
                lemma_digits_value_grows(d, i + 1 - start);
            }
            return None;
        }
        v = 10 * v + dig;
        i += 1;
    }
    proof {
        assert(cs@.subrange(start as int, i as int) =~= d);
    }
    Some(v)
}

} // verus!

verus! {

/// Bytes that a path may hold as they are in a URL: ASCII letters and digits and `/-._~`.
pub open spec fn is_unreserved(b: u8) -> bool {
    ||| 48 <= b <= 57
    ||| 65 <= b <= 90
    ||| 97 <= b <= 122
    ||| b == 47
    ||| b == 45
    ||| b == 46
    ||| b == 95
    ||| b == 126
}

/// The uppercase hexadecimal digit for `d < 16`.
pub open spec fn hex_upper_char(d: nat) -> char {
    if d < 10 {
        ((48 + d) as u8) as char
    } else {
        ((55 + d) as u8) as char
    }
}

/// How one byte of a path appears in a URL.
pub open spec fn encode_byte(b: u8) -> Seq<char> {
    if is_unreserved(b) {
        seq![b as char]
    } else {
        seq!['%', hex_upper_char((b / 16) as nat), hex_upper_char((b % 16) as nat)]
    }
}

/// The percent-encoding of the bytes `bs`.
pub open spec fn percent_encoded(bs: Seq<u8>) -> Seq<char>
    decreases bs.len(),
{
    if bs.len() == 0 {
        seq![]
    } else {
        encode_byte(bs[0]) + percent_encoded(bs.drop_first())
    }
}

proof fn lemma_percent_encoded_append(a: Seq<u8>, b: Seq<u8>)
    ensures
        percent_encoded(a + b) == percent_encoded(a) + percent_encoded(b),
    decreases a.len(),
{
    if a.len() == 0 {
        assert(a + b =~= b);
    } else {
        assert((a + b).drop_first() =~= a.drop_first() + b);
        lemma_percent_encoded_append(a.drop_first(), b);
        assert(percent_encoded(a + b) =~= percent_encoded(a) + percent_encoded(b));
    }
}

fn hex_upper(d: u8) -> (c: char)
    requires
        d < 16,
    ensures
        c == hex_upper_char(d as nat),
{
    if d < 10 {
        (48 + d) as char
    } else {
        (55 + d) as char
    }
}

/// Percent-encodes the bytes of `path` for use in a URL, leaving `/` and the unreserved characters.
pub fn percent_encode(path: &str) -> (res: String)
    ensures
        res@ == percent_encoded(encode_utf8(path@)),
{
    let bytes = path.as_bytes();
    let mut out = String::new();
    let mut i: usize = 0;
    while i < bytes.len()
        invariant
            0 <= i <= bytes@.len(),
            bytes@ == encode_utf8(path@),
            out@ == percent_encoded(bytes@.take(i as int)),
        decreases bytes@.len() - i,
    {
        let b = bytes[i];
        proof {
            assert(bytes@.take(i + 1) =~= bytes@.take(i as int) + seq![b]);
            lemma_percent_encoded_append(bytes@.take(i as int), seq![b]);
            assert(percent_encoded(seq![b]) =~= encode_byte(b)) by {
                assert(seq![b].drop_first() =~= Seq::<u8>::empty());
                assert(percent_encoded(Seq::<u8>::empty()) =~= Seq::<char>::empty());
                assert(encode_byte(b) + Seq::<char>::empty() =~= encode_byte(b));
            }
        }
        if (48 <= b && b <= 57) || (65 <= b && b <= 90) || (97 <= b && b <= 122) || b == 47 || b
            == 45 || b == 46 || b == 95 || b == 126 {
            out.push(b as char);
        } else {
            out.push('%');
            out.push(hex_upper(b / 16));
            out.push(hex_upper(b % 16));
        }
        i += 1;
    }
    assert(bytes@.take(i as int) =~= bytes@);
    out
}

/// The value of an ASCII hexadecimal digit, either case.
pub open spec fn hex_value(b: u8) -> Option<nat> {
    if 48 <= b <= 57 {
        Some((b - 48) as nat)
    } else if 65 <= b <= 70 {
        Some((b - 55) as nat)
    } else if 97 <= b <= 102 {
        Some((b - 87) as nat)
    } else {
        None
    }
}

/// The byte that the two bytes after a `%` stand for, read as `u8::from_str_radix(.., 16)` reads
/// them: two hexadecimal digits, or `+` and one digit.
pub open spec fn escape_value(b1: u8, b2: u8) -> Option<u8> {
    if b1 == 43 {
        match hex_value(b2) {
            Some(l) => Some(l as u8),
            None => None,
        }
    } else {
        match (hex_value(b1), hex_value(b2)) {
            (Some(h), Some(l)) => Some((16 * h + l) as u8),
            _ => None,
        }
    }
}

/// The bytes that the percent-encoded `bs` stand for, or `None` when a `%` is not followed by an
/// escape.
pub open spec fn percent_decoded(bs: Seq<u8>) -> Option<Seq<u8>>
    decreases bs.len(),
{
    if bs.len() == 0 {
        Some(seq![])
    } else if bs[0] == 37 {
        if bs.len() < 3 {
            None
        } else {
            match escape_value(bs[1], bs[2]) {
                None => None,
                Some(v) => match percent_decoded(bs.skip(3)) {
                    None => None,
                    Some(r) => Some(seq![v] + r),
                },
            }
        }
    } else {
        match percent_decoded(bs.skip(1)) {
            None => None,
            Some(r) => Some(seq![bs[0]] + r),
        }
    }
}

/// `out` followed by what `rest` holds, if it holds anything.
pub open spec fn prepend(out: Seq<u8>, rest: Option<Seq<u8>>) -> Option<Seq<u8>> {
    match rest {
        Some(r) => Some(out + r),
        None => None,
    }
}

/// What `percent_decode` gives for `s`: its decoded bytes, if they are valid UTF-8.
pub open spec fn percent_decoded_str(s: Seq<char>) -> Option<Seq<char>> {
    match percent_decoded(encode_utf8(s)) {
        Some(out) => if valid_utf8(out) {
            Some(decode_utf8(out))
        } else {
            None
        },
        None => None,
    }
}

fn hex_digit_value(b: u8) -> (r: Option<u8>)
    ensures
        match hex_value(b) {
            Some(v) => r == Some(v as u8),
            None => r is None,
        },
{
    if 48 <= b && b <= 57 {
        Some(b - 48)
    } else if 65 <= b && b <= 70 {
        Some(b - 55)
    } else if 97 <= b && b <= 102 {
        Some(b - 87)
    } else {
        None
    }
}

/// Decodes `%XX` escapes in `s`; `None` when an escape is malformed or the result is not UTF-8.
pub fn percent_decode(s: &str) -> (res: Option<String>)
    ensures
        match res {
            Some(r) => percent_decoded_str(s@) == Some(r@),
            None => percent_decoded_str(s@) is None,
        },
{
    let bytes = s.as_bytes();
    let len = bytes.len();
    let mut out: Vec<u8> = Vec::new();
    let mut i: usize = 0;
    assert(bytes@.skip(0) =~= bytes@);
    while i < len
        invariant
            0 <= i <= len == bytes@.len(),
            bytes@ == encode_utf8(s@),
            percent_decoded(bytes@) == prepend(out@, percent_decoded(bytes@.skip(i as int))),
        decreases len - i,
    {
        let ghost rest = bytes@.skip(i as int);
        if bytes[i] == 37 {
            if len - i < 3 {
                return None;
            }
            let v = if bytes[i + 1] == 43 {
                match hex_digit_value(bytes[i + 2]) {
                    Some(l) => l,
                    None => {
                        return None;
                    },
                }
            } else {
                match (hex_digit_value(bytes[i + 1]), hex_digit_value(bytes[i + 2])) {
                    (Some(h), Some(l)) => 16 * h + l,
                    _ => {
                        return None;
                    },
                }
            };
            proof {
                assert(rest.skip(3) =~= bytes@.skip(i + 3));
                assert(escape_value(rest[1], rest[2]) == Some(v));
                match percent_decoded(bytes@.skip(i + 3)) {
                    Some(r) => assert(out@ + (seq![v] + r) =~= out@.push(v) + r),
                    None => {},
                }
            }
            out.push(v);
            i += 3;
        } else {
            let b = bytes[i];
            proof {
                assert(rest.skip(1) =~= bytes@.skip(i + 1));
                match percent_decoded(bytes@.skip(i + 1)) {
                    Some(r) => assert(out@ + (seq![b] + r) =~= out@.push(b) + r),
                    None => {},
                }
            }
            out.push(b);
            i += 1;
        }
    }
    proof {
        assert(bytes@.skip(len as int) =~= Seq::<u8>::empty());
        assert(out@ + Seq::<u8>::empty() =~= out@);
    }
    string_from_utf8(out)
}

proof fn lemma_percent_encoded_ascii(bs: Seq<u8>)
    ensures
        is_ascii_chars(percent_encoded(bs)),
    decreases bs.len(),
{
    if bs.len() > 0 {
        lemma_percent_encoded_ascii(bs.drop_first());
        let e = encode_byte(bs[0]);
        let r = percent_encoded(bs.drop_first());
        assert forall|i: int| 0 <= i < (e + r).len() implies '\0' <= #[trigger] (e + r)[i] <= '\u{7f}' by {
            if i >= e.len() {
                assert((e + r)[i] == r[i - e.len()]);
            }
        }
    }
}

/// The bytes of the ASCII characters `cs`.
spec fn ascii_bytes(cs: Seq<char>) -> Seq<u8> {
    cs.map_values(|c: char| c as u8)
}

proof fn lemma_decode_encoded(bs: Seq<u8>)
    ensures
        percent_decoded(ascii_bytes(percent_encoded(bs))) == Some(bs),
    decreases bs.len(),
{
    if bs.len() == 0 {
        assert(ascii_bytes(percent_encoded(bs)) =~= Seq::<u8>::empty());
    } else {
        let b = bs[0];
        let rest = bs.drop_first();
        lemma_decode_encoded(rest);
        let e = ascii_bytes(percent_encoded(bs));
        let r = ascii_bytes(percent_encoded(rest));
        if is_unreserved(b) {
            assert(e =~= seq![b] + r);
            assert(e.skip(1) =~= r);
            assert(seq![b] + rest =~= bs);
        } else {
            let h = ((b / 16) as nat);
            let l = ((b % 16) as nat);
            assert(e =~= seq![37u8, hex_upper_char(h) as u8, hex_upper_char(l) as u8] + r);
            assert(e.skip(3) =~= r);
            assert(hex_value(hex_upper_char(h) as u8) == Some(h));
            assert(hex_value(hex_upper_char(l) as u8) == Some(l));
            assert(escape_value(e[1], e[2]) == Some(b));
            assert(seq![b] + rest =~= bs);
        }
    }
}

/// Percent-encoded text holds no `?` and no `#`, so it is all path in a URL.
pub proof fn lemma_percent_encoded_is_path(bs: Seq<u8>)
    ensures
        forall|i: int|
            0 <= i < percent_encoded(bs).len() ==> #[trigger] percent_encoded(bs)[i] != '?'
                && percent_encoded(bs)[i] != '#',
    decreases bs.len(),
{
    if bs.len() > 0 {
        lemma_percent_encoded_is_path(bs.drop_first());
        let e = encode_byte(bs[0]);
        let r = percent_encoded(bs.drop_first());
        assert forall|i: int| 0 <= i < (e + r).len() implies #[trigger] (e + r)[i] != '?' && (e
            + r)[i] != '#' by {
            if i >= e.len() {
                assert((e + r)[i] == r[i - e.len()]);
            }
        }
    }
}

/// Decoding what `percent_encode` gives yields the path back: a link to a file always leads to
/// that file.
pub proof fn lemma_percent_round_trip(path: Seq<char>)
    ensures
        percent_decoded_str(percent_encoded(encode_utf8(path))) == Some(path),
{
    let bs = encode_utf8(path);
    let enc = percent_encoded(bs);
    lemma_percent_encoded_ascii(bs);
    is_ascii_chars_encode_utf8(enc);
    assert(encode_utf8(enc) =~= ascii_bytes(enc));
    lemma_decode_encoded(bs);
    encode_utf8_valid_utf8(path);
    encode_utf8_decode_utf8(path);
}

/// Escaped text holds no `<`, `>` or `"`, so it cannot open a tag or end an attribute value.
pub proof fn lemma_escaped_is_inert(s: Seq<char>)
    ensures
        forall|i: int|
            0 <= i < escaped(s).len() ==> #[trigger] escaped(s)[i] != '<' && escaped(s)[i] != '>'
                && escaped(s)[i] != '"',
    decreases s.len(),
{
    if s.len() > 0 {
        lemma_escaped_is_inert(s.drop_last());
        let a = escaped(s.drop_last());
        let b = escape_char(s.last());
        assert forall|i: int| 0 <= i < (a + b).len() implies #[trigger] (a + b)[i] != '<' && (a
            + b)[i] != '>' && (a + b)[i] != '"' by {
            if i >= a.len() {
                assert((a + b)[i] == b[i - a.len()]);
            } else {
                assert((a + b)[i] == a[i]);
            }
        }
    }
}

} // verus!
