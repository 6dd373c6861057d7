//! Syntax highlighting for fenced code blocks, powered by tree-sitter: which grammar a code block
//! names, and the class each highlighted token gets.
use tree_sitter::{Language, QueryError};
use tree_sitter_highlight::{HighlightConfiguration, Highlighter, HtmlRenderer};
use vstd::prelude::*;
use vstd::utf8::encode_utf8;
use crate::common::{ascii_lower, chars_of, eq_ignore_ascii_case, range_eq_ignore_ascii_case};

verus! {

#[verifier::external_type_specification]
#[verifier::external_body]
pub struct ExLanguage(Language);

#[verifier::external_type_specification]
#[verifier::external_body]
pub struct ExQueryError(QueryError);

#[verifier::external_type_specification]
#[verifier::external_body]
pub struct ExHighlightConfiguration(HighlightConfiguration);

/// The number of grammars.
pub const GRAMMAR_COUNT: usize = 17;

/// A grammar's tree-sitter language, with the grammar it is the language of, numbered in the
/// order of `aliases` (the TypeScript crate's TSX language is grammar 15).
pub struct GrammarLanguage {
    language: Language,
    grammar: Ghost<int>,
}

/// What a highlight configuration was compiled from: the language of grammar `language`, the
/// name it reports, and its highlight, injection and locals queries.
pub struct ConfigSource {
    pub language: int,
    pub name: Seq<char>,
    pub highlights: Seq<char>,
    pub injections: Seq<char>,
    pub locals: Seq<char>,
}

/// A compiled highlight configuration, with what it was compiled from and the highlight names it
/// was then configured to recognize.
pub struct Config {
    config: HighlightConfiguration,
    source: Ghost<ConfigSource>,
    recognized: Ghost<Seq<Seq<char>>>,
}

/// Whether `HighlightConfiguration::new` compiles these queries for the language of grammar
/// `language`: it fails exactly when tree-sitter rejects a query for that language.
pub uninterp spec fn queries_compile(
    language: int,
    highlights: Seq<char>,
    injections: Seq<char>,
    locals: Seq<char>,
) -> bool;

/// Highlight queries as a grammar crate ships them: its highlight query, and those of its JSX
/// highlight, injection and locals queries that are compiled here.
#[derive(Clone, Copy)]
pub struct Queries {
    pub highlights: &'static str,
    pub jsx_highlights: Option<&'static str>,
    pub injections: Option<&'static str>,
    pub locals: Option<&'static str>,
}

/// The queries of a grammar crate, with the grammar whose crate it is (the TypeScript crate's
/// queries, which serve grammars 14 and 15, are those of grammar 14).
#[derive(Clone, Copy)]
pub struct Shipped {
    pub queries: Queries,
    pub crate_grammar: Ghost<int>,
}

/// The text of a query that a crate may not ship: empty where it does not.
pub open spec fn query_text(query: Option<&'static str>) -> Seq<char> {
    match query {
        Some(q) => q@,
        None => Seq::empty(),
    }
}

/// The grammar whose crate ships the queries of grammar `grammar`: its own, but TSX's are
/// TypeScript's.
pub open spec fn own_crate(grammar: int) -> int {
    if grammar == 15 {
        14
    } else {
        grammar
    }
}

/// The grammar whose queries grammar `grammar` builds on: C for C++, JavaScript for TypeScript and
/// TSX. The others build on nothing and are given their own queries in its place.
pub open spec fn base_crate(grammar: int) -> int {
    if grammar == 2 {
        1
    } else if grammar == 14 || grammar == 15 {
        8
    } else {
        grammar
    }
}

/// The highlight, injection and locals queries that grammar `grammar` is compiled from, out of
/// the queries of its own crate and of the crate it builds on. C++ follows its own highlight
/// patterns with C's; JavaScript follows its highlights with its JSX highlights; TypeScript and
/// TSX follow theirs with JavaScript's (TSX then with JSX's), take JavaScript's injections and
/// follow their own locals with JavaScript's. Own patterns come first, so they take precedence.
pub open spec fn assembled(grammar: int, own: Queries, base: Queries) -> (
    Seq<char>,
    Seq<char>,
    Seq<char>,
) {
    let highlights = own.highlights@;
    let injections = query_text(own.injections);
    let locals = query_text(own.locals);
    if grammar == 2 {
        (highlights + base.highlights@, injections, locals)
    } else if grammar == 8 {
        (highlights + query_text(own.jsx_highlights), injections, locals)
    } else if grammar == 14 {
        (
            highlights + base.highlights@,
            query_text(base.injections),
            locals + query_text(base.locals),
        )
    } else if grammar == 15 {
        (
            highlights + base.highlights@ + query_text(base.jsx_highlights),
            query_text(base.injections),
            locals + query_text(base.locals),
        )
    } else {
        (highlights, injections, locals)
    }
}

fn query_or_empty(query: Option<&'static str>) -> (res: &'static str)
    ensures
        res@ == query_text(query),
{
    match query {
        Some(q) => q,
        None => {
            proof {
                reveal_strlit("");
            }
            ""
        },
    }
}

fn concat(a: &str, b: &str) -> (res: String)
    ensures
        res@ == a@ + b@,
{
    let mut s = String::new();
    s.push_str(a);
    s.push_str(b);
    s
}

/// The highlight, injection and locals queries of grammar `grammar`, put together from the queries
/// of its own crate and of the crate it builds on as `assembled` says.
pub fn assemble_queries(grammar: usize, own: &Queries, base: &Queries) -> (res: (
    String,
    String,
    String,
))
    ensures
        (res.0@, res.1@, res.2@) == assembled(grammar as int, *own, *base),
{
    let injections = query_or_empty(own.injections);
    let locals = query_or_empty(own.locals);
    if grammar == 2 {
        (concat(own.highlights, base.highlights), injections.to_owned(), locals.to_owned())
    } else if grammar == 8 {
        let jsx = query_or_empty(own.jsx_highlights);
        (concat(own.highlights, jsx), injections.to_owned(), locals.to_owned())
    } else if grammar == 14 || grammar == 15 {
        let with_js = concat(own.highlights, base.highlights);
        let highlights = if grammar == 14 {
            with_js
        } else {
            concat(with_js.as_str(), query_or_empty(base.jsx_highlights))
        };
        (
            highlights,
            query_or_empty(base.injections).to_owned(),
            concat(locals, query_or_empty(base.locals)),
        )
    } else {
        (own.highlights.to_owned(), injections.to_owned(), locals.to_owned())
    }
}


/// The code block language names that each grammar answers to, compared ignoring case.
pub open spec fn aliases(grammar: int) -> Seq<Seq<char>> {
    if grammar == 0 {
        seq!["bash"@, "sh"@, "shell"@, "zsh"@]
    } else if grammar == 1 {
        seq!["c"@, "h"@]
    } else if grammar == 2 {
        seq!["cpp"@, "c++"@, "cc"@, "cxx"@, "hpp"@]
    } else if grammar == 3 {
        seq!["css"@]
    } else if grammar == 4 {
        seq!["elixir"@, "ex"@, "exs"@]
    } else if grammar == 5 {
        seq!["go"@, "golang"@]
    } else if grammar == 6 {
        seq!["html"@, "htm"@]
    } else if grammar == 7 {
        seq!["java"@]
    } else if grammar == 8 {
        seq!["javascript"@, "js"@, "jsx"@, "mjs"@, "cjs"@]
    } else if grammar == 9 {
        seq!["json"@]
    } else if grammar == 10 {
        seq!["python"@, "py"@, "python3"@]
    } else if grammar == 11 {
        seq!["ruby"@, "rb"@]
    } else if grammar == 12 {
        seq!["rust"@, "rs"@]
    } else if grammar == 13 {
        seq!["toml"@]
    } else if grammar == 14 {
        seq!["typescript"@, "ts"@, "mts"@, "cts"@]
    } else if grammar == 15 {
        seq!["tsx"@]
    } else {
        seq!["yaml"@, "yml"@]
    }
}

fn grammar_aliases(grammar: usize) -> (names: Vec<&'static str>)
    requires
        grammar < GRAMMAR_COUNT,
    ensures
        names@.len() == aliases(grammar as int).len(),
        forall|j: int| 0 <= j < names@.len() ==> #[trigger] names@[j]@ == aliases(grammar as int)[j],
{
    let names: Vec<&'static str> = if grammar == 0 {
        vec!["bash", "sh", "shell", "zsh"]
    } else if grammar == 1 {
        vec!["c", "h"]
    } else if grammar == 2 {
        vec!["cpp", "c++", "cc", "cxx", "hpp"]
    } else if grammar == 3 {
        vec!["css"]
    } else if grammar == 4 {
        vec!["elixir", "ex", "exs"]
    } else if grammar == 5 {
        vec!["go", "golang"]
    } else if grammar == 6 {
        vec!["html", "htm"]
    } else if grammar == 7 {
        vec!["java"]
    } else if grammar == 8 {
        vec!["javascript", "js", "jsx", "mjs", "cjs"]
    } else if grammar == 9 {
        vec!["json"]
    } else if grammar == 10 {
        vec!["python", "py", "python3"]
    } else if grammar == 11 {
        vec!["ruby", "rb"]
    } else if grammar == 12 {
        vec!["rust", "rs"]
    } else if grammar == 13 {
        vec!["toml"]
    } else if grammar == 14 {
        vec!["typescript", "ts", "mts", "cts"]
    } else if grammar == 15 {
        vec!["tsx"]
    } else {
        vec!["yaml", "yml"]
    };
    names
}

/// Grammar `grammar` answers to `name`.
pub open spec fn answers_to(grammar: int, name: Seq<char>) -> bool {
    exists|j: int|
        0 <= j < aliases(grammar).len() && eq_ignore_ascii_case(#[trigger] aliases(grammar)[j], name)
}

/// The first grammar from `from` on that answers to `name`.
pub open spec fn find_from(name: Seq<char>, from: int) -> Option<int>
    decreases GRAMMAR_COUNT - from,
{
    if from < 0 || from >= GRAMMAR_COUNT {
        None
    } else if answers_to(from, name) {
        Some(from)
    } else {
        find_from(name, from + 1)
    }
}

/// The grammar for a code block language name such as `rust` or `rs`, ignoring case.
pub open spec fn grammar_for(name: Seq<char>) -> Option<int> {
    find_from(name, 0)
}

/// The first grammar from `from` on that answers to `name` is `g`, when none from `from` up to `g`
/// does.
proof fn lemma_find_from_is(name: Seq<char>, from: int, g: int)
    requires
        0 <= from <= g < GRAMMAR_COUNT,
        answers_to(g, name),
        forall|h: int| from <= h < g ==> !answers_to(h, name),
    ensures
        find_from(name, from) == Some(g),
    decreases g - from,
{
    if from < g {
        lemma_find_from_is(name, from + 1, g);
    }
}

/// Equality ignoring ASCII case is symmetric and transitive.
proof fn lemma_eq_ignore_case_equivalence(a: Seq<char>, b: Seq<char>, c: Seq<char>)
    ensures
        eq_ignore_ascii_case(a, b) ==> eq_ignore_ascii_case(b, a),
        eq_ignore_ascii_case(a, b) && eq_ignore_ascii_case(b, c) ==> eq_ignore_ascii_case(a, c),
{
    if eq_ignore_ascii_case(a, b) && eq_ignore_ascii_case(b, c) {
        assert forall|i: int| 0 <= i < a.len() implies ascii_lower(#[trigger] a[i]) == ascii_lower(
            c[i],
        ) by {
            assert(ascii_lower(b[i]) == ascii_lower(c[i]));
        }
    }
}

/// Names equal but for ASCII case find the same grammar from `from` on.
proof fn lemma_find_from_ignores_case(name: Seq<char>, other: Seq<char>, from: int)
    requires
        eq_ignore_ascii_case(name, other),
    ensures
        find_from(name, from) == find_from(other, from),
    decreases GRAMMAR_COUNT - from,
{
    if 0 <= from < GRAMMAR_COUNT {
        if answers_to(from, name) {
            let j = choose|j: int|
                0 <= j < aliases(from).len() && eq_ignore_ascii_case(
                    #[trigger] aliases(from)[j],
                    name,
                );
            lemma_eq_ignore_case_equivalence(aliases(from)[j], name, other);
        }
        if answers_to(from, other) {
            let j = choose|j: int|
                0 <= j < aliases(from).len() && eq_ignore_ascii_case(
                    #[trigger] aliases(from)[j],
                    other,
                );
            lemma_eq_ignore_case_equivalence(name, other, other);
            lemma_eq_ignore_case_equivalence(other, name, name);
            lemma_eq_ignore_case_equivalence(aliases(from)[j], other, name);
        }
        lemma_find_from_ignores_case(name, other, from + 1);
    }
}

/// The bash grammar is the one found for each of its names.
#[verifier::spinoff_prover]
proof fn lemma_grammar_0_names()
    ensures
        grammar_for("bash"@) == Some(0int),
        grammar_for("sh"@) == Some(0int),
        grammar_for("shell"@) == Some(0int),
        grammar_for("zsh"@) == Some(0int),
{
    reveal_strlit("bash");
    reveal_strlit("sh");
    reveal_strlit("shell");
    reveal_strlit("zsh");
    assert(eq_ignore_ascii_case(aliases(0)[0], "bash"@));
    lemma_find_from_is("bash"@, 0, 0);
    assert(eq_ignore_ascii_case(aliases(0)[1], "sh"@));
    lemma_find_from_is("sh"@, 0, 0);
    assert(eq_ignore_ascii_case(aliases(0)[2], "shell"@));
    lemma_find_from_is("shell"@, 0, 0);
    assert(eq_ignore_ascii_case(aliases(0)[3], "zsh"@));
    lemma_find_from_is("zsh"@, 0, 0);
}

/// The C grammar is the one found for each of its names.
#[verifier::spinoff_prover]
proof fn lemma_grammar_1_names()
    ensures
        grammar_for("c"@) == Some(1int),
        grammar_for("h"@) == Some(1int),
{
    reveal_strlit("bash");
    reveal_strlit("sh");
    reveal_strlit("shell");
    reveal_strlit("zsh");
    reveal_strlit("c");
    reveal_strlit("h");
    assert(eq_ignore_ascii_case(aliases(1)[0], "c"@));
    assert forall|h: int| 0 <= h < 1 implies !answers_to(h, "c"@) by {
        if answers_to(h, "c"@) {
            let k = choose|k: int|
                0 <= k < aliases(h).len() && eq_ignore_ascii_case(#[trigger] aliases(h)[k], "c"@);
            assert(ascii_lower(aliases(h)[k][0]) == ascii_lower("c"@[0]));
        }
    }
    lemma_find_from_is("c"@, 0, 1);
    assert(eq_ignore_ascii_case(aliases(1)[1], "h"@));
    assert forall|h: int| 0 <= h < 1 implies !answers_to(h, "h"@) by {
        if answers_to(h, "h"@) {
            let k = choose|k: int|
                0 <= k < aliases(h).len() && eq_ignore_ascii_case(#[trigger] aliases(h)[k], "h"@);
            assert(ascii_lower(aliases(h)[k][0]) == ascii_lower("h"@[0]));
        }
    }
    lemma_find_from_is("h"@, 0, 1);
}

/// The C++ grammar is the one found for each of its names.
#[verifier::spinoff_prover]
proof fn lemma_grammar_2_names()
    ensures
        grammar_for("cpp"@) == Some(2int),
        grammar_for("c++"@) == Some(2int),
        grammar_for("cc"@) == Some(2int),
        grammar_for("cxx"@) == Some(2int),
        grammar_for("hpp"@) == Some(2int),
{
    reveal_strlit("bash");
    reveal_strlit("sh");
    reveal_strlit("shell");
    reveal_strlit("zsh");
    reveal_strlit("c");
    reveal_strlit("h");
    reveal_strlit("cpp");
    reveal_strlit("c++");
    reveal_strlit("cc");
    reveal_strlit("cxx");
    reveal_strlit("hpp");
    assert(eq_ignore_ascii_case(aliases(2)[0], "cpp"@));
    assert forall|h: int| 0 <= h < 2 implies !answers_to(h, "cpp"@) by {
        if answers_to(h, "cpp"@) {
            let k = choose|k: int|
                0 <= k < aliases(h).len() && eq_ignore_ascii_case(#[trigger] aliases(h)[k], "cpp"@);
            assert(ascii_lower(aliases(h)[k][0]) == ascii_lower("cpp"@[0]));
            assert(ascii_lower(aliases(h)[k][1]) == ascii_lower("cpp"@[1]));
            assert(ascii_lower(aliases(h)[k][2]) == ascii_lower("cpp"@[2]));
        }
    }
    lemma_find_from_is("cpp"@, 0, 2);
    assert(eq_ignore_ascii_case(aliases(2)[1], "c++"@));
    assert forall|h: int| 0 <= h < 2 implies !answers_to(h, "c++"@) by {
        if answers_to(h, "c++"@) {
            let k = choose|k: int|
                0 <= k < aliases(h).len() && eq_ignore_ascii_case(#[trigger] aliases(h)[k], "c++"@);
            assert(ascii_lower(aliases(h)[k][0]) == ascii_lower("c++"@[0]));
            assert(ascii_lower(aliases(h)[k][1]) == ascii_lower("c++"@[1]));
            assert(ascii_lower(aliases(h)[k][2]) == ascii_lower("c++"@[2]));
        }
    }
    lemma_find_from_is("c++"@, 0, 2);
    assert(eq_ignore_ascii_case(aliases(2)[2], "cc"@));
    assert forall|h: int| 0 <= h < 2 implies !answers_to(h, "cc"@) by {
        if answers_to(h, "cc"@) {
            let k = choose|k: int|
                0 <= k < aliases(h).len() && eq_ignore_ascii_case(#[trigger] aliases(h)[k], "cc"@);
            assert(ascii_lower(aliases(h)[k][0]) == ascii_lower("cc"@[0]));
            assert(ascii_lower(aliases(h)[k][1]) == ascii_lower("cc"@[1]));
        }
    }
    lemma_find_from_is("cc"@, 0, 2);
    assert(eq_ignore_ascii_case(aliases(2)[3], "cxx"@));
    assert forall|h: int| 0 <= h < 2 implies !answers_to(h, "cxx"@) by {
        if answers_to(h, "cxx"@) {
            let k = choose|k: int|
                0 <= k < aliases(h).len() && eq_ignore_ascii_case(#[trigger] aliases(h)[k], "cxx"@);
            assert(ascii_lower(aliases(h)[k][0]) == ascii_lower("cxx"@[0]));
            assert(ascii_lower(aliases(h)[k][1]) == ascii_lower("cxx"@[1]));
            assert(ascii_lower(aliases(h)[k][2]) == ascii_lower("cxx"@[2]));
        }
    }
    lemma_find_from_is("cxx"@, 0, 2);
    assert(eq_ignore_ascii_case(aliases(2)[4], "hpp"@));
    assert forall|h: int| 0 <= h < 2 implies !answers_to(h, "hpp"@) by {
        if answers_to(h, "hpp"@) {
            let k = choose|k: int|
                0 <= k < aliases(h).len() && eq_ignore_ascii_case(#[trigger] aliases(h)[k], "hpp"@);
            assert(ascii_lower(aliases(h)[k][0]) == ascii_lower("hpp"@[0]));
            assert(ascii_lower(aliases(h)[k][1]) == ascii_lower("hpp"@[1]));
            assert(ascii_lower(aliases(h)[k][2]) == ascii_lower("hpp"@[2]));
        }
    }
    lemma_find_from_is("hpp"@, 0, 2);
}

/// The CSS grammar is the one found for each of its names.
#[verifier::spinoff_prover]
proof fn lemma_grammar_3_names()
    ensures
        grammar_for("css"@) == Some(3int),
{
    reveal_strlit("bash");
    reveal_strlit("sh");
    reveal_strlit("shell");
    reveal_strlit("zsh");
    reveal_strlit("c");
    reveal_strlit("h");
    reveal_strlit("cpp");
    reveal_strlit("c++");
    reveal_strlit("cc");
    reveal_strlit("cxx");
    reveal_strlit("hpp");
    reveal_strlit("css");
    assert(eq_ignore_ascii_case(aliases(3)[0], "css"@));
    assert forall|h: int| 0 <= h < 3 implies !answers_to(h, "css"@) by {
        if answers_to(h, "css"@) {
            let k = choose|k: int|
                0 <= k < aliases(h).len() && eq_ignore_ascii_case(#[trigger] aliases(h)[k], "css"@);
            assert(ascii_lower(aliases(h)[k][0]) == ascii_lower("css"@[0]));
            assert(ascii_lower(aliases(h)[k][1]) == ascii_lower("css"@[1]));
            assert(ascii_lower(aliases(h)[k][2]) == ascii_lower("css"@[2]));
        }
    }
    lemma_find_from_is("css"@, 0, 3);
}

/// The Elixir grammar is the one found for each of its names.
#[verifier::spinoff_prover]
proof fn lemma_grammar_4_names()
    ensures
        grammar_for("elixir"@) == Some(4int),
        grammar_for("ex"@) == Some(4int),
        grammar_for("exs"@) == Some(4int),
{
    reveal_strlit("bash");
    reveal_strlit("sh");
    reveal_strlit("shell");
    reveal_strlit("zsh");
    reveal_strlit("c");
    reveal_strlit("h");
    reveal_strlit("cpp");
    reveal_strlit("c++");
    reveal_strlit("cc");
    reveal_strlit("cxx");
    reveal_strlit("hpp");
    reveal_strlit("css");
    reveal_strlit("elixir");
    reveal_strlit("ex");
    reveal_strlit("exs");
    assert(eq_ignore_ascii_case(aliases(4)[0], "elixir"@));
    assert forall|h: int| 0 <= h < 4 implies !answers_to(h, "elixir"@) by {
        if answers_to(h, "elixir"@) {
            let k = choose|k: int|
                0 <= k < aliases(h).len() && eq_ignore_ascii_case(#[trigger] aliases(h)[k], "elixir"@);
            assert(ascii_lower(aliases(h)[k][0]) == ascii_lower("elixir"@[0]));
            assert(ascii_lower(aliases(h)[k][1]) == ascii_lower("elixir"@[1]));
            assert(ascii_lower(aliases(h)[k][2]) == ascii_lower("elixir"@[2]));
            assert(ascii_lower(aliases(h)[k][3]) == ascii_lower("elixir"@[3]));
            assert(ascii_lower(aliases(h)[k][4]) == ascii_lower("elixir"@[4]));
            assert(ascii_lower(aliases(h)[k][5]) == ascii_lower("elixir"@[5]));
        }
    }
    lemma_find_from_is("elixir"@, 0, 4);
    assert(eq_ignore_ascii_case(aliases(4)[1], "ex"@));
    assert forall|h: int| 0 <= h < 4 implies !answers_to(h, "ex"@) by {
        if answers_to(h, "ex"@) {
            let k = choose|k: int|
                0 <= k < aliases(h).len() && eq_ignore_ascii_case(#[trigger] aliases(h)[k], "ex"@);
            assert(ascii_lower(aliases(h)[k][0]) == ascii_lower("ex"@[0]));
            assert(ascii_lower(aliases(h)[k][1]) == ascii_lower("ex"@[1]));
        }
    }
    lemma_find_from_is("ex"@, 0, 4);
    assert(eq_ignore_ascii_case(aliases(4)[2], "exs"@));
    assert forall|h: int| 0 <= h < 4 implies !answers_to(h, "exs"@) by {
        if answers_to(h, "exs"@) {
            let k = choose|k: int|
                0 <= k < aliases(h).len() && eq_ignore_ascii_case(#[trigger] aliases(h)[k], "exs"@);
            assert(ascii_lower(aliases(h)[k][0]) == ascii_lower("exs"@[0]));
            assert(ascii_lower(aliases(h)[k][1]) == ascii_lower("exs"@[1]));
            assert(ascii_lower(aliases(h)[k][2]) == ascii_lower("exs"@[2]));
        }
    }
    lemma_find_from_is("exs"@, 0, 4);
}

/// The Go grammar is the one found for each of its names.
#[verifier::spinoff_prover]
proof fn lemma_grammar_5_names()
    ensures
        grammar_for("go"@) == Some(5int),
        grammar_for("golang"@) == Some(5int),
{
    reveal_strlit("bash");
    reveal_strlit("sh");
    reveal_strlit("shell");
    reveal_strlit("zsh");
    reveal_strlit("c");
    reveal_strlit("h");
    reveal_strlit("cpp");
    reveal_strlit("c++");
    reveal_strlit("cc");
    reveal_strlit("cxx");
    reveal_strlit("hpp");
    reveal_strlit("css");
    reveal_strlit("elixir");
    reveal_strlit("ex");
    reveal_strlit("exs");
    reveal_strlit("go");
    reveal_strlit("golang");
    assert(eq_ignore_ascii_case(aliases(5)[0], "go"@));
    assert forall|h: int| 0 <= h < 5 implies !answers_to(h, "go"@) by {
        if answers_to(h, "go"@) {
            let k = choose|k: int|
                0 <= k < aliases(h).len() && eq_ignore_ascii_case(#[trigger] aliases(h)[k], "go"@);
            assert(ascii_lower(aliases(h)[k][0]) == ascii_lower("go"@[0]));
            assert(ascii_lower(aliases(h)[k][1]) == ascii_lower("go"@[1]));
        }
    }
    lemma_find_from_is("go"@, 0, 5);
    assert(eq_ignore_ascii_case(aliases(5)[1], "golang"@));
    assert forall|h: int| 0 <= h < 5 implies !answers_to(h, "golang"@) by {
        if answers_to(h, "golang"@) {
            let k = choose|k: int|
                0 <= k < aliases(h).len() && eq_ignore_ascii_case(#[trigger] aliases(h)[k], "golang"@);
            assert(ascii_lower(aliases(h)[k][0]) == ascii_lower("golang"@[0]));
            assert(ascii_lower(aliases(h)[k][1]) == ascii_lower("golang"@[1]));
            assert(ascii_lower(aliases(h)[k][2]) == ascii_lower("golang"@[2]));
            assert(ascii_lower(aliases(h)[k][3]) == ascii_lower("golang"@[3]));
            assert(ascii_lower(aliases(h)[k][4]) == ascii_lower("golang"@[4]));
            assert(ascii_lower(aliases(h)[k][5]) == ascii_lower("golang"@[5]));
        }
    }
    lemma_find_from_is("golang"@, 0, 5);
}

/// The HTML grammar is the one found for each of its names.
#[verifier::spinoff_prover]
proof fn lemma_grammar_6_names()
    ensures
        grammar_for("html"@) == Some(6int),
        grammar_for("htm"@) == Some(6int),
{
    reveal_strlit("bash");
    reveal_strlit("sh");
    reveal_strlit("shell");
    reveal_strlit("zsh");
    reveal_strlit("c");
    reveal_strlit("h");
    reveal_strlit("cpp");
    reveal_strlit("c++");
    reveal_strlit("cc");
    reveal_strlit("cxx");
    reveal_strlit("hpp");
    reveal_strlit("css");
    reveal_strlit("elixir");
    reveal_strlit("ex");
    reveal_strlit("exs");
    reveal_strlit("go");
    reveal_strlit("golang");
    reveal_strlit("html");
    reveal_strlit("htm");
    assert(eq_ignore_ascii_case(aliases(6)[0], "html"@));
    assert forall|h: int| 0 <= h < 6 implies !answers_to(h, "html"@) by {
        if answers_to(h, "html"@) {
            let k = choose|k: int|
                0 <= k < aliases(h).len() && eq_ignore_ascii_case(#[trigger] aliases(h)[k], "html"@);
            assert(ascii_lower(aliases(h)[k][0]) == ascii_lower("html"@[0]));
            assert(ascii_lower(aliases(h)[k][1]) == ascii_lower("html"@[1]));
            assert(ascii_lower(aliases(h)[k][2]) == ascii_lower("html"@[2]));
            assert(ascii_lower(aliases(h)[k][3]) == ascii_lower("html"@[3]));
        }
    }
    lemma_find_from_is("html"@, 0, 6);
    assert(eq_ignore_ascii_case(aliases(6)[1], "htm"@));
    assert forall|h: int| 0 <= h < 6 implies !answers_to(h, "htm"@) by {
        if answers_to(h, "htm"@) {
            let k = choose|k: int|
                0 <= k < aliases(h).len() && eq_ignore_ascii_case(#[trigger] aliases(h)[k], "htm"@);
            assert(ascii_lower(aliases(h)[k][0]) == ascii_lower("htm"@[0]));
            assert(ascii_lower(aliases(h)[k][1]) == ascii_lower("htm"@[1]));
            assert(ascii_lower(aliases(h)[k][2]) == ascii_lower("htm"@[2]));
        }
    }
    lemma_find_from_is("htm"@, 0, 6);
}

/// The Java grammar is the one found for each of its names.
#[verifier::spinoff_prover]
proof fn lemma_grammar_7_names()
    ensures
        grammar_for("java"@) == Some(7int),
{
    reveal_strlit("bash");
    reveal_strlit("sh");
    reveal_strlit("shell");
    reveal_strlit("zsh");
    reveal_strlit("c");
    reveal_strlit("h");
    reveal_strlit("cpp");
    reveal_strlit("c++");
    reveal_strlit("cc");
    reveal_strlit("cxx");
    reveal_strlit("hpp");
    reveal_strlit("css");
    reveal_strlit("elixir");
    reveal_strlit("ex");
    reveal_strlit("exs");
    reveal_strlit("go");
    reveal_strlit("golang");
    reveal_strlit("html");
    reveal_strlit("htm");
    reveal_strlit("java");
    assert(eq_ignore_ascii_case(aliases(7)[0], "java"@));
    assert forall|h: int| 0 <= h < 7 implies !answers_to(h, "java"@) by {
        if answers_to(h, "java"@) {
            let k = choose|k: int|
                0 <= k < aliases(h).len() && eq_ignore_ascii_case(#[trigger] aliases(h)[k], "java"@);
            assert(ascii_lower(aliases(h)[k][0]) == ascii_lower("java"@[0]));
            assert(ascii_lower(aliases(h)[k][1]) == ascii_lower("java"@[1]));
            assert(ascii_lower(aliases(h)[k][2]) == ascii_lower("java"@[2]));
            assert(ascii_lower(aliases(h)[k][3]) == ascii_lower("java"@[3]));
        }
    }
    lemma_find_from_is("java"@, 0, 7);
}

/// The JavaScript grammar is the one found for each of its names.
#[verifier::spinoff_prover]
proof fn lemma_grammar_8_names()
    ensures
        grammar_for("javascript"@) == Some(8int),
        grammar_for("js"@) == Some(8int),
        grammar_for("jsx"@) == Some(8int),
        grammar_for("mjs"@) == Some(8int),
        grammar_for("cjs"@) == Some(8int),
{
    reveal_strlit("bash");
    reveal_strlit("sh");
    reveal_strlit("shell");
    reveal_strlit("zsh");
    reveal_strlit("c");
    reveal_strlit("h");
    reveal_strlit("cpp");
    reveal_strlit("c++");
    reveal_strlit("cc");
    reveal_strlit("cxx");
    reveal_strlit("hpp");
    reveal_strlit("css");
    reveal_strlit("elixir");
    reveal_strlit("ex");
    reveal_strlit("exs");
    reveal_strlit("go");
    reveal_strlit("golang");
    reveal_strlit("html");
    reveal_strlit("htm");
    reveal_strlit("java");
    reveal_strlit("javascript");
    reveal_strlit("js");
    reveal_strlit("jsx");
    reveal_strlit("mjs");
    reveal_strlit("cjs");
    assert(eq_ignore_ascii_case(aliases(8)[0], "javascript"@));
    assert forall|h: int| 0 <= h < 8 implies !answers_to(h, "javascript"@) by {
        if answers_to(h, "javascript"@) {
            let k = choose|k: int|
                0 <= k < aliases(h).len() && eq_ignore_ascii_case(#[trigger] aliases(h)[k], "javascript"@);
            assert(ascii_lower(aliases(h)[k][0]) == ascii_lower("javascript"@[0]));
            assert(ascii_lower(aliases(h)[k][1]) == ascii_lower("javascript"@[1]));
            assert(ascii_lower(aliases(h)[k][2]) == ascii_lower("javascript"@[2]));
            assert(ascii_lower(aliases(h)[k][3]) == ascii_lower("javascript"@[3]));
            assert(ascii_lower(aliases(h)[k][4]) == ascii_lower("javascript"@[4]));
            assert(ascii_lower(aliases(h)[k][5]) == ascii_lower("javascript"@[5]));
            assert(ascii_lower(aliases(h)[k][6]) == ascii_lower("javascript"@[6]));
            assert(ascii_lower(aliases(h)[k][7]) == ascii_lower("javascript"@[7]));
            assert(ascii_lower(aliases(h)[k][8]) == ascii_lower("javascript"@[8]));
            assert(ascii_lower(aliases(h)[k][9]) == ascii_lower("javascript"@[9]));
        }
    }
    lemma_find_from_is("javascript"@, 0, 8);
    assert(eq_ignore_ascii_case(aliases(8)[1], "js"@));
    assert forall|h: int| 0 <= h < 8 implies !answers_to(h, "js"@) by {
        if answers_to(h, "js"@) {
            let k = choose|k: int|
                0 <= k < aliases(h).len() && eq_ignore_ascii_case(#[trigger] aliases(h)[k], "js"@);
            assert(ascii_lower(aliases(h)[k][0]) == ascii_lower("js"@[0]));
            assert(ascii_lower(aliases(h)[k][1]) == ascii_lower("js"@[1]));
        }
    }
    lemma_find_from_is("js"@, 0, 8);
    assert(eq_ignore_ascii_case(aliases(8)[2], "jsx"@));
    assert forall|h: int| 0 <= h < 8 implies !answers_to(h, "jsx"@) by {
        if answers_to(h, "jsx"@) {
            let k = choose|k: int|
                0 <= k < aliases(h).len() && eq_ignore_ascii_case(#[trigger] aliases(h)[k], "jsx"@);
            assert(ascii_lower(aliases(h)[k][0]) == ascii_lower("jsx"@[0]));
            assert(ascii_lower(aliases(h)[k][1]) == ascii_lower("jsx"@[1]));
            assert(ascii_lower(aliases(h)[k][2]) == ascii_lower("jsx"@[2]));
        }
    }
    lemma_find_from_is("jsx"@, 0, 8);
    assert(eq_ignore_ascii_case(aliases(8)[3], "mjs"@));
    assert forall|h: int| 0 <= h < 8 implies !answers_to(h, "mjs"@) by {
        if answers_to(h, "mjs"@) {
            let k = choose|k: int|
                0 <= k < aliases(h).len() && eq_ignore_ascii_case(#[trigger] aliases(h)[k], "mjs"@);
            assert(ascii_lower(aliases(h)[k][0]) == ascii_lower("mjs"@[0]));
            assert(ascii_lower(aliases(h)[k][1]) == ascii_lower("mjs"@[1]));
            assert(ascii_lower(aliases(h)[k][2]) == ascii_lower("mjs"@[2]));
        }
    }
    lemma_find_from_is("mjs"@, 0, 8);
    assert(eq_ignore_ascii_case(aliases(8)[4], "cjs"@));
    assert forall|h: int| 0 <= h < 8 implies !answers_to(h, "cjs"@) by {
        if answers_to(h, "cjs"@) {
            let k = choose|k: int|
                0 <= k < aliases(h).len() && eq_ignore_ascii_case(#[trigger] aliases(h)[k], "cjs"@);
            assert(ascii_lower(aliases(h)[k][0]) == ascii_lower("cjs"@[0]));
            assert(ascii_lower(aliases(h)[k][1]) == ascii_lower("cjs"@[1]));
            assert(ascii_lower(aliases(h)[k][2]) == ascii_lower("cjs"@[2]));
        }
    }
    lemma_find_from_is("cjs"@, 0, 8);
}

/// The JSON grammar is the one found for each of its names.
#[verifier::spinoff_prover]
proof fn lemma_grammar_9_names()
    ensures
        grammar_for("json"@) == Some(9int),
{
    reveal_strlit("bash");
    reveal_strlit("sh");
    reveal_strlit("shell");
    reveal_strlit("zsh");
    reveal_strlit("c");
    reveal_strlit("h");
    reveal_strlit("cpp");
    reveal_strlit("c++");
    reveal_strlit("cc");
    reveal_strlit("cxx");
    reveal_strlit("hpp");
    reveal_strlit("css");
    reveal_strlit("elixir");
    reveal_strlit("ex");
    reveal_strlit("exs");
    reveal_strlit("go");
    reveal_strlit("golang");
    reveal_strlit("html");
    reveal_strlit("htm");
    reveal_strlit("java");
    reveal_strlit("javascript");
    reveal_strlit("js");
    reveal_strlit("jsx");
    reveal_strlit("mjs");
    reveal_strlit("cjs");
    reveal_strlit("json");
    assert(eq_ignore_ascii_case(aliases(9)[0], "json"@));
    assert forall|h: int| 0 <= h < 9 implies !answers_to(h, "json"@) by {
        if answers_to(h, "json"@) {
            let k = choose|k: int|
                0 <= k < aliases(h).len() && eq_ignore_ascii_case(#[trigger] aliases(h)[k], "json"@);
            assert(ascii_lower(aliases(h)[k][0]) == ascii_lower("json"@[0]));
            assert(ascii_lower(aliases(h)[k][1]) == ascii_lower("json"@[1]));
            assert(ascii_lower(aliases(h)[k][2]) == ascii_lower("json"@[2]));
            assert(ascii_lower(aliases(h)[k][3]) == ascii_lower("json"@[3]));
        }
    }
    lemma_find_from_is("json"@, 0, 9);
}

/// The Python grammar is the one found for each of its names.
#[verifier::spinoff_prover]
proof fn lemma_grammar_10_names()
    ensures
        grammar_for("python"@) == Some(10int),
        grammar_for("py"@) == Some(10int),
        grammar_for("python3"@) == Some(10int),
{
    reveal_strlit("bash");
    reveal_strlit("sh");
    reveal_strlit("shell");
    reveal_strlit("zsh");
    reveal_strlit("c");
    reveal_strlit("h");
    reveal_strlit("cpp");
    reveal_strlit("c++");
    reveal_strlit("cc");
    reveal_strlit("cxx");
    reveal_strlit("hpp");
    reveal_strlit("css");
    reveal_strlit("elixir");
    reveal_strlit("ex");
    reveal_strlit("exs");
    reveal_strlit("go");
    reveal_strlit("golang");
    reveal_strlit("html");
    reveal_strlit("htm");
    reveal_strlit("java");
    reveal_strlit("javascript");
    reveal_strlit("js");
    reveal_strlit("jsx");
    reveal_strlit("mjs");
    reveal_strlit("cjs");
    reveal_strlit("json");
    reveal_strlit("python");
    reveal_strlit("py");
    reveal_strlit("python3");
    assert(eq_ignore_ascii_case(aliases(10)[0], "python"@));
    assert forall|h: int| 0 <= h < 10 implies !answers_to(h, "python"@) by {
        if answers_to(h, "python"@) {
            let k = choose|k: int|
                0 <= k < aliases(h).len() && eq_ignore_ascii_case(#[trigger] aliases(h)[k], "python"@);
            assert(ascii_lower(aliases(h)[k][0]) == ascii_lower("python"@[0]));
            assert(ascii_lower(aliases(h)[k][1]) == ascii_lower("python"@[1]));
            assert(ascii_lower(aliases(h)[k][2]) == ascii_lower("python"@[2]));
            assert(ascii_lower(aliases(h)[k][3]) == ascii_lower("python"@[3]));
            assert(ascii_lower(aliases(h)[k][4]) == ascii_lower("python"@[4]));
            assert(ascii_lower(aliases(h)[k][5]) == ascii_lower("python"@[5]));
        }
    }
    lemma_find_from_is("python"@, 0, 10);
    assert(eq_ignore_ascii_case(aliases(10)[1], "py"@));
    assert forall|h: int| 0 <= h < 10 implies !answers_to(h, "py"@) by {
        if answers_to(h, "py"@) {
            let k = choose|k: int|
                0 <= k < aliases(h).len() && eq_ignore_ascii_case(#[trigger] aliases(h)[k], "py"@);
            assert(ascii_lower(aliases(h)[k][0]) == ascii_lower("py"@[0]));
            assert(ascii_lower(aliases(h)[k][1]) == ascii_lower("py"@[1]));
        }
    }
    lemma_find_from_is("py"@, 0, 10);
    assert(eq_ignore_ascii_case(aliases(10)[2], "python3"@));
    assert forall|h: int| 0 <= h < 10 implies !answers_to(h, "python3"@) by {
        if answers_to(h, "python3"@) {
            let k = choose|k: int|
                0 <= k < aliases(h).len() && eq_ignore_ascii_case(#[trigger] aliases(h)[k], "python3"@);
            assert(ascii_lower(aliases(h)[k][0]) == ascii_lower("python3"@[0]));
            assert(ascii_lower(aliases(h)[k][1]) == ascii_lower("python3"@[1]));
            assert(ascii_lower(aliases(h)[k][2]) == ascii_lower("python3"@[2]));
            assert(ascii_lower(aliases(h)[k][3]) == ascii_lower("python3"@[3]));
            assert(ascii_lower(aliases(h)[k][4]) == ascii_lower("python3"@[4]));
            assert(ascii_lower(aliases(h)[k][5]) == ascii_lower("python3"@[5]));
            assert(ascii_lower(aliases(h)[k][6]) == ascii_lower("python3"@[6]));
        }
    }
    lemma_find_from_is("python3"@, 0, 10);
}

/// The Ruby grammar is the one found for each of its names.
#[verifier::spinoff_prover]
proof fn lemma_grammar_11_names()
    ensures
        grammar_for("ruby"@) == Some(11int),
        grammar_for("rb"@) == Some(11int),
{
    reveal_strlit("bash");
    reveal_strlit("sh");
    reveal_strlit("shell");
    reveal_strlit("zsh");
    reveal_strlit("c");
    reveal_strlit("h");
    reveal_strlit("cpp");
    reveal_strlit("c++");
    reveal_strlit("cc");
    reveal_strlit("cxx");
    reveal_strlit("hpp");
    reveal_strlit("css");
    reveal_strlit("elixir");
    reveal_strlit("ex");
    reveal_strlit("exs");
    reveal_strlit("go");
    reveal_strlit("golang");
    reveal_strlit("html");
    reveal_strlit("htm");
    reveal_strlit("java");
    reveal_strlit("javascript");
    reveal_strlit("js");
    reveal_strlit("jsx");
    reveal_strlit("mjs");
    reveal_strlit("cjs");
    reveal_strlit("json");
    reveal_strlit("python");
    reveal_strlit("py");
    reveal_strlit("python3");
    reveal_strlit("ruby");
    reveal_strlit("rb");
    assert(eq_ignore_ascii_case(aliases(11)[0], "ruby"@));
    assert forall|h: int| 0 <= h < 11 implies !answers_to(h, "ruby"@) by {
        if answers_to(h, "ruby"@) {
            let k = choose|k: int|
                0 <= k < aliases(h).len() && eq_ignore_ascii_case(#[trigger] aliases(h)[k], "ruby"@);
            assert(ascii_lower(aliases(h)[k][0]) == ascii_lower("ruby"@[0]));
            assert(ascii_lower(aliases(h)[k][1]) == ascii_lower("ruby"@[1]));
            assert(ascii_lower(aliases(h)[k][2]) == ascii_lower("ruby"@[2]));
            assert(ascii_lower(aliases(h)[k][3]) == ascii_lower("ruby"@[3]));
        }
    }
    lemma_find_from_is("ruby"@, 0, 11);
    assert(eq_ignore_ascii_case(aliases(11)[1], "rb"@));
    assert forall|h: int| 0 <= h < 11 implies !answers_to(h, "rb"@) by {
        if answers_to(h, "rb"@) {
            let k = choose|k: int|
                0 <= k < aliases(h).len() && eq_ignore_ascii_case(#[trigger] aliases(h)[k], "rb"@);
            assert(ascii_lower(aliases(h)[k][0]) == ascii_lower("rb"@[0]));
            assert(ascii_lower(aliases(h)[k][1]) == ascii_lower("rb"@[1]));
        }
    }
    lemma_find_from_is("rb"@, 0, 11);
}

/// The Rust grammar is the one found for each of its names.
#[verifier::spinoff_prover]
proof fn lemma_grammar_12_names()
    ensures
        grammar_for("rust"@) == Some(12int),
        grammar_for("rs"@) == Some(12int),
{
    reveal_strlit("bash");
    reveal_strlit("sh");
    reveal_strlit("shell");
    reveal_strlit("zsh");
    reveal_strlit("c");
    reveal_strlit("h");
    reveal_strlit("cpp");
    reveal_strlit("c++");
    reveal_strlit("cc");
    reveal_strlit("cxx");
    reveal_strlit("hpp");
    reveal_strlit("css");
    reveal_strlit("elixir");
    reveal_strlit("ex");
    reveal_strlit("exs");
    reveal_strlit("go");
    reveal_strlit("golang");
    reveal_strlit("html");
    reveal_strlit("htm");
    reveal_strlit("java");
    reveal_strlit("javascript");
    reveal_strlit("js");
    reveal_strlit("jsx");
    reveal_strlit("mjs");
    reveal_strlit("cjs");
    reveal_strlit("json");
    reveal_strlit("python");
    reveal_strlit("py");
    reveal_strlit("python3");
    reveal_strlit("ruby");
    reveal_strlit("rb");
    reveal_strlit("rust");
    reveal_strlit("rs");
    assert(eq_ignore_ascii_case(aliases(12)[0], "rust"@));
    assert forall|h: int| 0 <= h < 12 implies !answers_to(h, "rust"@) by {
        if answers_to(h, "rust"@) {
            let k = choose|k: int|
                0 <= k < aliases(h).len() && eq_ignore_ascii_case(#[trigger] aliases(h)[k], "rust"@);
            assert(ascii_lower(aliases(h)[k][0]) == ascii_lower("rust"@[0]));
            assert(ascii_lower(aliases(h)[k][1]) == ascii_lower("rust"@[1]));
            assert(ascii_lower(aliases(h)[k][2]) == ascii_lower("rust"@[2]));
            assert(ascii_lower(aliases(h)[k][3]) == ascii_lower("rust"@[3]));
        }
    }
    lemma_find_from_is("rust"@, 0, 12);
    assert(eq_ignore_ascii_case(aliases(12)[1], "rs"@));
    assert forall|h: int| 0 <= h < 12 implies !answers_to(h, "rs"@) by {
        if answers_to(h, "rs"@) {
            let k = choose|k: int|
                0 <= k < aliases(h).len() && eq_ignore_ascii_case(#[trigger] aliases(h)[k], "rs"@);
            assert(ascii_lower(aliases(h)[k][0]) == ascii_lower("rs"@[0]));
            assert(ascii_lower(aliases(h)[k][1]) == ascii_lower("rs"@[1]));
        }
    }
    lemma_find_from_is("rs"@, 0, 12);
}

/// The TOML grammar is the one found for each of its names.
#[verifier::spinoff_prover]
proof fn lemma_grammar_13_names()
    ensures
        grammar_for("toml"@) == Some(13int),
{
    reveal_strlit("bash");
    reveal_strlit("sh");
    reveal_strlit("shell");
    reveal_strlit("zsh");
    reveal_strlit("c");
    reveal_strlit("h");
    reveal_strlit("cpp");
    reveal_strlit("c++");
    reveal_strlit("cc");
    reveal_strlit("cxx");
    reveal_strlit("hpp");
    reveal_strlit("css");
    reveal_strlit("elixir");
    reveal_strlit("ex");
    reveal_strlit("exs");
    reveal_strlit("go");
    reveal_strlit("golang");
    reveal_strlit("html");
    reveal_strlit("htm");
    reveal_strlit("java");
    reveal_strlit("javascript");
    reveal_strlit("js");
    reveal_strlit("jsx");
    reveal_strlit("mjs");
    reveal_strlit("cjs");
    reveal_strlit("json");
    reveal_strlit("python");
    reveal_strlit("py");
    reveal_strlit("python3");
    reveal_strlit("ruby");
    reveal_strlit("rb");
    reveal_strlit("rust");
    reveal_strlit("rs");
    reveal_strlit("toml");
    assert(eq_ignore_ascii_case(aliases(13)[0], "toml"@));
    assert forall|h: int| 0 <= h < 13 implies !answers_to(h, "toml"@) by {
        if answers_to(h, "toml"@) {
            let k = choose|k: int|
                0 <= k < aliases(h).len() && eq_ignore_ascii_case(#[trigger] aliases(h)[k], "toml"@);
            assert(ascii_lower(aliases(h)[k][0]) == ascii_lower("toml"@[0]));
            assert(ascii_lower(aliases(h)[k][1]) == ascii_lower("toml"@[1]));
            assert(ascii_lower(aliases(h)[k][2]) == ascii_lower("toml"@[2]));
            assert(ascii_lower(aliases(h)[k][3]) == ascii_lower("toml"@[3]));
        }
    }
    lemma_find_from_is("toml"@, 0, 13);
}

/// The TypeScript grammar is the one found for each of its names.
#[verifier::spinoff_prover]
proof fn lemma_grammar_14_names()
    ensures
        grammar_for("typescript"@) == Some(14int),
        grammar_for("ts"@) == Some(14int),
        grammar_for("mts"@) == Some(14int),
        grammar_for("cts"@) == Some(14int),
{
    reveal_strlit("bash");
    reveal_strlit("sh");
    reveal_strlit("shell");
    reveal_strlit("zsh");
    reveal_strlit("c");
    reveal_strlit("h");
    reveal_strlit("cpp");
    reveal_strlit("c++");
    reveal_strlit("cc");
    reveal_strlit("cxx");
    reveal_strlit("hpp");
    reveal_strlit("css");
    reveal_strlit("elixir");
    reveal_strlit("ex");
    reveal_strlit("exs");
    reveal_strlit("go");
    reveal_strlit("golang");
    reveal_strlit("html");
    reveal_strlit("htm");
    reveal_strlit("java");
    reveal_strlit("javascript");
    reveal_strlit("js");
    reveal_strlit("jsx");
    reveal_strlit("mjs");
    reveal_strlit("cjs");
    reveal_strlit("json");
    reveal_strlit("python");
    reveal_strlit("py");
    reveal_strlit("python3");
    reveal_strlit("ruby");
    reveal_strlit("rb");
    reveal_strlit("rust");
    reveal_strlit("rs");
    reveal_strlit("toml");
    reveal_strlit("typescript");
    reveal_strlit("ts");
    reveal_strlit("mts");
    reveal_strlit("cts");
    assert(eq_ignore_ascii_case(aliases(14)[0], "typescript"@));
    assert forall|h: int| 0 <= h < 14 implies !answers_to(h, "typescript"@) by {
        if answers_to(h, "typescript"@) {
            let k = choose|k: int|
                0 <= k < aliases(h).len() && eq_ignore_ascii_case(#[trigger] aliases(h)[k], "typescript"@);
            assert(ascii_lower(aliases(h)[k][0]) == ascii_lower("typescript"@[0]));
            assert(ascii_lower(aliases(h)[k][1]) == ascii_lower("typescript"@[1]));
            assert(ascii_lower(aliases(h)[k][2]) == ascii_lower("typescript"@[2]));
            assert(ascii_lower(aliases(h)[k][3]) == ascii_lower("typescript"@[3]));
            assert(ascii_lower(aliases(h)[k][4]) == ascii_lower("typescript"@[4]));
            assert(ascii_lower(aliases(h)[k][5]) == ascii_lower("typescript"@[5]));
            assert(ascii_lower(aliases(h)[k][6]) == ascii_lower("typescript"@[6]));
            assert(ascii_lower(aliases(h)[k][7]) == ascii_lower("typescript"@[7]));
            assert(ascii_lower(aliases(h)[k][8]) == ascii_lower("typescript"@[8]));
            assert(ascii_lower(aliases(h)[k][9]) == ascii_lower("typescript"@[9]));
        }
    }
    lemma_find_from_is("typescript"@, 0, 14);
    assert(eq_ignore_ascii_case(aliases(14)[1], "ts"@));
    assert forall|h: int| 0 <= h < 14 implies !answers_to(h, "ts"@) by {
        if answers_to(h, "ts"@) {
            let k = choose|k: int|
                0 <= k < aliases(h).len() && eq_ignore_ascii_case(#[trigger] aliases(h)[k], "ts"@);
            assert(ascii_lower(aliases(h)[k][0]) == ascii_lower("ts"@[0]));
            assert(ascii_lower(aliases(h)[k][1]) == ascii_lower("ts"@[1]));
        }
    }
    lemma_find_from_is("ts"@, 0, 14);
    assert(eq_ignore_ascii_case(aliases(14)[2], "mts"@));
    assert forall|h: int| 0 <= h < 14 implies !answers_to(h, "mts"@) by {
        if answers_to(h, "mts"@) {
            let k = choose|k: int|
                0 <= k < aliases(h).len() && eq_ignore_ascii_case(#[trigger] aliases(h)[k], "mts"@);
            assert(ascii_lower(aliases(h)[k][0]) == ascii_lower("mts"@[0]));
            assert(ascii_lower(aliases(h)[k][1]) == ascii_lower("mts"@[1]));
            assert(ascii_lower(aliases(h)[k][2]) == ascii_lower("mts"@[2]));
        }
    }
    lemma_find_from_is("mts"@, 0, 14);
    assert(eq_ignore_ascii_case(aliases(14)[3], "cts"@));
    assert forall|h: int| 0 <= h < 14 implies !answers_to(h, "cts"@) by {
        if answers_to(h, "cts"@) {
            let k = choose|k: int|
                0 <= k < aliases(h).len() && eq_ignore_ascii_case(#[trigger] aliases(h)[k], "cts"@);
            assert(ascii_lower(aliases(h)[k][0]) == ascii_lower("cts"@[0]));
            assert(ascii_lower(aliases(h)[k][1]) == ascii_lower("cts"@[1]));
            assert(ascii_lower(aliases(h)[k][2]) == ascii_lower("cts"@[2]));
        }
    }
    lemma_find_from_is("cts"@, 0, 14);
}

/// The TSX grammar is the one found for each of its names.
#[verifier::spinoff_prover]
proof fn lemma_grammar_15_names()
    ensures
        grammar_for("tsx"@) == Some(15int),
{
    reveal_strlit("bash");
    reveal_strlit("sh");
    reveal_strlit("shell");
    reveal_strlit("zsh");
    reveal_strlit("c");
    reveal_strlit("h");
    reveal_strlit("cpp");
    reveal_strlit("c++");
    reveal_strlit("cc");
    reveal_strlit("cxx");
    reveal_strlit("hpp");
    reveal_strlit("css");
    reveal_strlit("elixir");
    reveal_strlit("ex");
    reveal_strlit("exs");
    reveal_strlit("go");
    reveal_strlit("golang");
    reveal_strlit("html");
    reveal_strlit("htm");
    reveal_strlit("java");
    reveal_strlit("javascript");
    reveal_strlit("js");
    reveal_strlit("jsx");
    reveal_strlit("mjs");
    reveal_strlit("cjs");
    reveal_strlit("json");
    reveal_strlit("python");
    reveal_strlit("py");
    reveal_strlit("python3");
    reveal_strlit("ruby");
    reveal_strlit("rb");
    reveal_strlit("rust");
    reveal_strlit("rs");
    reveal_strlit("toml");
    reveal_strlit("typescript");
    reveal_strlit("ts");
    reveal_strlit("mts");
    reveal_strlit("cts");
    reveal_strlit("tsx");
    assert(eq_ignore_ascii_case(aliases(15)[0], "tsx"@));
    assert forall|h: int| 0 <= h < 15 implies !answers_to(h, "tsx"@) by {
        if answers_to(h, "tsx"@) {
            let k = choose|k: int|
                0 <= k < aliases(h).len() && eq_ignore_ascii_case(#[trigger] aliases(h)[k], "tsx"@);
            assert(ascii_lower(aliases(h)[k][0]) == ascii_lower("tsx"@[0]));
            assert(ascii_lower(aliases(h)[k][1]) == ascii_lower("tsx"@[1]));
            assert(ascii_lower(aliases(h)[k][2]) == ascii_lower("tsx"@[2]));
        }
    }
    lemma_find_from_is("tsx"@, 0, 15);
}

/// The YAML grammar is the one found for each of its names.
#[verifier::spinoff_prover]
proof fn lemma_grammar_16_names()
    ensures
        grammar_for("yaml"@) == Some(16int),
        grammar_for("yml"@) == Some(16int),
{
    reveal_strlit("bash");
    reveal_strlit("sh");
    reveal_strlit("shell");
    reveal_strlit("zsh");
    reveal_strlit("c");
    reveal_strlit("h");
    reveal_strlit("cpp");
    reveal_strlit("c++");
    reveal_strlit("cc");
    reveal_strlit("cxx");
    reveal_strlit("hpp");
    reveal_strlit("css");
    reveal_strlit("elixir");
    reveal_strlit("ex");
    reveal_strlit("exs");
    reveal_strlit("go");
    reveal_strlit("golang");
    reveal_strlit("html");
    reveal_strlit("htm");
    reveal_strlit("java");
    reveal_strlit("javascript");
    reveal_strlit("js");
    reveal_strlit("jsx");
    reveal_strlit("mjs");
    reveal_strlit("cjs");
    reveal_strlit("json");
    reveal_strlit("python");
    reveal_strlit("py");
    reveal_strlit("python3");
    reveal_strlit("ruby");
    reveal_strlit("rb");
    reveal_strlit("rust");
    reveal_strlit("rs");
    reveal_strlit("toml");
    reveal_strlit("typescript");
    reveal_strlit("ts");
    reveal_strlit("mts");
    reveal_strlit("cts");
    reveal_strlit("tsx");
    reveal_strlit("yaml");
    reveal_strlit("yml");
    assert(eq_ignore_ascii_case(aliases(16)[0], "yaml"@));
    assert forall|h: int| 0 <= h < 16 implies !answers_to(h, "yaml"@) by {
        if answers_to(h, "yaml"@) {
            let k = choose|k: int|
                0 <= k < aliases(h).len() && eq_ignore_ascii_case(#[trigger] aliases(h)[k], "yaml"@);
            assert(ascii_lower(aliases(h)[k][0]) == ascii_lower("yaml"@[0]));
            assert(ascii_lower(aliases(h)[k][1]) == ascii_lower("yaml"@[1]));
            assert(ascii_lower(aliases(h)[k][2]) == ascii_lower("yaml"@[2]));
            assert(ascii_lower(aliases(h)[k][3]) == ascii_lower("yaml"@[3]));
        }
    }
    lemma_find_from_is("yaml"@, 0, 16);
    assert(eq_ignore_ascii_case(aliases(16)[1], "yml"@));
    assert forall|h: int| 0 <= h < 16 implies !answers_to(h, "yml"@) by {
        if answers_to(h, "yml"@) {
            let k = choose|k: int|
                0 <= k < aliases(h).len() && eq_ignore_ascii_case(#[trigger] aliases(h)[k], "yml"@);
            assert(ascii_lower(aliases(h)[k][0]) == ascii_lower("yml"@[0]));
            assert(ascii_lower(aliases(h)[k][1]) == ascii_lower("yml"@[1]));
            assert(ascii_lower(aliases(h)[k][2]) == ascii_lower("yml"@[2]));
        }
    }
    lemma_find_from_is("yml"@, 0, 16);
}

/// A code block's language name finds the grammar of that language, in any ASCII case: `bash`,
/// `sh`, `shell` and `zsh` the bash grammar, `py` and `python3` the Python grammar, and so on for
/// each grammar and each of its names; grammars are numbered in the order of `aliases`.
pub proof fn lemma_names_find_their_grammars(name: Seq<char>)
    ensures
        (eq_ignore_ascii_case(name, "bash"@) || eq_ignore_ascii_case(name, "sh"@) || eq_ignore_ascii_case(name, "shell"@) || eq_ignore_ascii_case(name, "zsh"@)) ==> grammar_for(name) == Some(0int),
        (eq_ignore_ascii_case(name, "c"@) || eq_ignore_ascii_case(name, "h"@)) ==> grammar_for(name) == Some(1int),
        (eq_ignore_ascii_case(name, "cpp"@) || eq_ignore_ascii_case(name, "c++"@) || eq_ignore_ascii_case(name, "cc"@) || eq_ignore_ascii_case(name, "cxx"@) || eq_ignore_ascii_case(name, "hpp"@)) ==> grammar_for(name) == Some(2int),
        eq_ignore_ascii_case(name, "css"@) ==> grammar_for(name) == Some(3int),
        (eq_ignore_ascii_case(name, "elixir"@) || eq_ignore_ascii_case(name, "ex"@) || eq_ignore_ascii_case(name, "exs"@)) ==> grammar_for(name) == Some(4int),
        (eq_ignore_ascii_case(name, "go"@) || eq_ignore_ascii_case(name, "golang"@)) ==> grammar_for(name) == Some(5int),
        (eq_ignore_ascii_case(name, "html"@) || eq_ignore_ascii_case(name, "htm"@)) ==> grammar_for(name) == Some(6int),
        eq_ignore_ascii_case(name, "java"@) ==> grammar_for(name) == Some(7int),
        (eq_ignore_ascii_case(name, "javascript"@) || eq_ignore_ascii_case(name, "js"@) || eq_ignore_ascii_case(name, "jsx"@) || eq_ignore_ascii_case(name, "mjs"@) || eq_ignore_ascii_case(name, "cjs"@)) ==> grammar_for(name) == Some(8int),
        eq_ignore_ascii_case(name, "json"@) ==> grammar_for(name) == Some(9int),
        (eq_ignore_ascii_case(name, "python"@) || eq_ignore_ascii_case(name, "py"@) || eq_ignore_ascii_case(name, "python3"@)) ==> grammar_for(name) == Some(10int),
        (eq_ignore_ascii_case(name, "ruby"@) || eq_ignore_ascii_case(name, "rb"@)) ==> grammar_for(name) == Some(11int),
        (eq_ignore_ascii_case(name, "rust"@) || eq_ignore_ascii_case(name, "rs"@)) ==> grammar_for(name) == Some(12int),
        eq_ignore_ascii_case(name, "toml"@) ==> grammar_for(name) == Some(13int),
        (eq_ignore_ascii_case(name, "typescript"@) || eq_ignore_ascii_case(name, "ts"@) || eq_ignore_ascii_case(name, "mts"@) || eq_ignore_ascii_case(name, "cts"@)) ==> grammar_for(name) == Some(14int),
        eq_ignore_ascii_case(name, "tsx"@) ==> grammar_for(name) == Some(15int),
        (eq_ignore_ascii_case(name, "yaml"@) || eq_ignore_ascii_case(name, "yml"@)) ==> grammar_for(name) == Some(16int),
{
    lemma_grammar_0_names();
    lemma_grammar_1_names();
    lemma_grammar_2_names();
    lemma_grammar_3_names();
    lemma_grammar_4_names();
    lemma_grammar_5_names();
    lemma_grammar_6_names();
    lemma_grammar_7_names();
    lemma_grammar_8_names();
    lemma_grammar_9_names();
    lemma_grammar_10_names();
    lemma_grammar_11_names();
    lemma_grammar_12_names();
    lemma_grammar_13_names();
    lemma_grammar_14_names();
    lemma_grammar_15_names();
    lemma_grammar_16_names();
    if eq_ignore_ascii_case(name, "bash"@) {
        lemma_find_from_ignores_case(name, "bash"@, 0);
    }
    if eq_ignore_ascii_case(name, "sh"@) {
        lemma_find_from_ignores_case(name, "sh"@, 0);
    }
    if eq_ignore_ascii_case(name, "shell"@) {
        lemma_find_from_ignores_case(name, "shell"@, 0);
    }
    if eq_ignore_ascii_case(name, "zsh"@) {
        lemma_find_from_ignores_case(name, "zsh"@, 0);
    }
    if eq_ignore_ascii_case(name, "c"@) {
        lemma_find_from_ignores_case(name, "c"@, 0);
    }
    if eq_ignore_ascii_case(name, "h"@) {
        lemma_find_from_ignores_case(name, "h"@, 0);
    }
    if eq_ignore_ascii_case(name, "cpp"@) {
        lemma_find_from_ignores_case(name, "cpp"@, 0);
    }
    if eq_ignore_ascii_case(name, "c++"@) {
        lemma_find_from_ignores_case(name, "c++"@, 0);
    }
    if eq_ignore_ascii_case(name, "cc"@) {
        lemma_find_from_ignores_case(name, "cc"@, 0);
    }
    if eq_ignore_ascii_case(name, "cxx"@) {
        lemma_find_from_ignores_case(name, "cxx"@, 0);
    }
    if eq_ignore_ascii_case(name, "hpp"@) {
        lemma_find_from_ignores_case(name, "hpp"@, 0);
    }
    if eq_ignore_ascii_case(name, "css"@) {
        lemma_find_from_ignores_case(name, "css"@, 0);
    }
    if eq_ignore_ascii_case(name, "elixir"@) {
        lemma_find_from_ignores_case(name, "elixir"@, 0);
    }
    if eq_ignore_ascii_case(name, "ex"@) {
        lemma_find_from_ignores_case(name, "ex"@, 0);
    }
    if eq_ignore_ascii_case(name, "exs"@) {
        lemma_find_from_ignores_case(name, "exs"@, 0);
    }
    if eq_ignore_ascii_case(name, "go"@) {
        lemma_find_from_ignores_case(name, "go"@, 0);
    }
    if eq_ignore_ascii_case(name, "golang"@) {
        lemma_find_from_ignores_case(name, "golang"@, 0);
    }
    if eq_ignore_ascii_case(name, "html"@) {
        lemma_find_from_ignores_case(name, "html"@, 0);
    }
    if eq_ignore_ascii_case(name, "htm"@) {
        lemma_find_from_ignores_case(name, "htm"@, 0);
    }
    if eq_ignore_ascii_case(name, "java"@) {
        lemma_find_from_ignores_case(name, "java"@, 0);
    }
    if eq_ignore_ascii_case(name, "javascript"@) {
        lemma_find_from_ignores_case(name, "javascript"@, 0);
    }
    if eq_ignore_ascii_case(name, "js"@) {
        lemma_find_from_ignores_case(name, "js"@, 0);
    }
    if eq_ignore_ascii_case(name, "jsx"@) {
        lemma_find_from_ignores_case(name, "jsx"@, 0);
    }
    if eq_ignore_ascii_case(name, "mjs"@) {
        lemma_find_from_ignores_case(name, "mjs"@, 0);
    }
    if eq_ignore_ascii_case(name, "cjs"@) {
        lemma_find_from_ignores_case(name, "cjs"@, 0);
    }
    if eq_ignore_ascii_case(name, "json"@) {
        lemma_find_from_ignores_case(name, "json"@, 0);
    }
    if eq_ignore_ascii_case(name, "python"@) {
        lemma_find_from_ignores_case(name, "python"@, 0);
    }
    if eq_ignore_ascii_case(name, "py"@) {
        lemma_find_from_ignores_case(name, "py"@, 0);
    }
    if eq_ignore_ascii_case(name, "python3"@) {
        lemma_find_from_ignores_case(name, "python3"@, 0);
    }
    if eq_ignore_ascii_case(name, "ruby"@) {
        lemma_find_from_ignores_case(name, "ruby"@, 0);
    }
    if eq_ignore_ascii_case(name, "rb"@) {
        lemma_find_from_ignores_case(name, "rb"@, 0);
    }
    if eq_ignore_ascii_case(name, "rust"@) {
        lemma_find_from_ignores_case(name, "rust"@, 0);
    }
    if eq_ignore_ascii_case(name, "rs"@) {
        lemma_find_from_ignores_case(name, "rs"@, 0);
    }
    if eq_ignore_ascii_case(name, "toml"@) {
        lemma_find_from_ignores_case(name, "toml"@, 0);
    }
    if eq_ignore_ascii_case(name, "typescript"@) {
        lemma_find_from_ignores_case(name, "typescript"@, 0);
    }
    if eq_ignore_ascii_case(name, "ts"@) {
        lemma_find_from_ignores_case(name, "ts"@, 0);
    }
    if eq_ignore_ascii_case(name, "mts"@) {
        lemma_find_from_ignores_case(name, "mts"@, 0);
    }
    if eq_ignore_ascii_case(name, "cts"@) {
        lemma_find_from_ignores_case(name, "cts"@, 0);
    }
    if eq_ignore_ascii_case(name, "tsx"@) {
        lemma_find_from_ignores_case(name, "tsx"@, 0);
    }
    if eq_ignore_ascii_case(name, "yaml"@) {
        lemma_find_from_ignores_case(name, "yaml"@, 0);
    }
    if eq_ignore_ascii_case(name, "yml"@) {
        lemma_find_from_ignores_case(name, "yml"@, 0);
    }
}

/// Looks up a grammar by a code block language name such as `rust` or `rs`, ignoring case.
pub fn find(name: &str) -> (res: Option<usize>)
    ensures
        match res {
            Some(i) => grammar_for(name@) == Some(i as int) && i < GRAMMAR_COUNT,
            None => grammar_for(name@) is None,
        },
{
    let cs = chars_of(name);
    assert(cs@.subrange(0, cs@.len() as int) =~= cs@);
    let mut g: usize = 0;
    while g < GRAMMAR_COUNT
        invariant
            g <= GRAMMAR_COUNT,
            cs@ == name@,
            grammar_for(name@) == find_from(name@, g as int),
        decreases GRAMMAR_COUNT - g,
    {
        let names = grammar_aliases(g);
        let mut j: usize = 0;
        let mut found = false;
        while j < names.len()
            invariant
                j <= names@.len(),
                g < GRAMMAR_COUNT,
                cs@ == name@,
                grammar_for(name@) == find_from(name@, g as int),
                names@.len() == aliases(g as int).len(),
                forall|k: int| 0 <= k < names@.len() ==> #[trigger] names@[k]@ == aliases(g as int)[k],
                forall|k: int|
                    0 <= k < j ==> !eq_ignore_ascii_case(#[trigger] aliases(g as int)[k], name@),
            decreases names@.len() - j,
        {
            let alias = chars_of(names[j]);
            assert(alias@ == aliases(g as int)[j as int]);
            assert(alias@.subrange(0, alias@.len() as int) =~= alias@);
            if range_eq_ignore_ascii_case(&alias, 0, alias.len(), &cs) {
                assert(answers_to(g as int, name@));
                return Some(g);
            }
            j += 1;
        }
        g += 1;
    }
    None
}

/// The `tree_sitter_bash` crate: the language of grammar 0 (bash) and the highlight query it ships.
#[verifier::external_body]
fn bash_grammar() -> (res: (GrammarLanguage, Shipped))
    ensures
        res.0.grammar@ == 0,
        res.1.crate_grammar@ == 0,
{
    let queries = Queries {
        highlights: tree_sitter_bash::HIGHLIGHT_QUERY,
        jsx_highlights: None,
        injections: None,
        locals: None,
    };
    (
        GrammarLanguage { language: tree_sitter_bash::LANGUAGE.into(), grammar: Ghost(0) },
        Shipped { queries, crate_grammar: Ghost(0) },
    )
}

/// The `tree_sitter_c` crate: the language of grammar 1 (c) and the highlight query it ships.
#[verifier::external_body]
fn c_grammar() -> (res: (GrammarLanguage, Shipped))
    ensures
        res.0.grammar@ == 1,
        res.1.crate_grammar@ == 1,
{
    let queries = Queries {
        highlights: tree_sitter_c::HIGHLIGHT_QUERY,
        jsx_highlights: None,
        injections: None,
        locals: None,
    };
    (
        GrammarLanguage { language: tree_sitter_c::LANGUAGE.into(), grammar: Ghost(1) },
        Shipped { queries, crate_grammar: Ghost(1) },
    )
}

/// The `tree_sitter_cpp` crate: the language of grammar 2 (cpp) and the highlight query it ships.
#[verifier::external_body]
fn cpp_grammar() -> (res: (GrammarLanguage, Shipped))
    ensures
        res.0.grammar@ == 2,
        res.1.crate_grammar@ == 2,
{
    let queries = Queries {
        highlights: tree_sitter_cpp::HIGHLIGHT_QUERY,
        jsx_highlights: None,
        injections: None,
        locals: None,
    };
    (
        GrammarLanguage { language: tree_sitter_cpp::LANGUAGE.into(), grammar: Ghost(2) },
        Shipped { queries, crate_grammar: Ghost(2) },
    )
}

/// The `tree_sitter_css` crate: the language of grammar 3 (css) and the highlight query it ships.
#[verifier::external_body]
fn css_grammar() -> (res: (GrammarLanguage, Shipped))
    ensures
        res.0.grammar@ == 3,
        res.1.crate_grammar@ == 3,
{
    let queries = Queries {
        highlights: tree_sitter_css::HIGHLIGHTS_QUERY,
        jsx_highlights: None,
        injections: None,
        locals: None,
    };
    (
        GrammarLanguage { language: tree_sitter_css::LANGUAGE.into(), grammar: Ghost(3) },
        Shipped { queries, crate_grammar: Ghost(3) },
    )
}

/// The `tree_sitter_elixir` crate: the language of grammar 4 (elixir) and the highlight and injection queries it ships.
#[verifier::external_body]
fn elixir_grammar() -> (res: (GrammarLanguage, Shipped))
    ensures
        res.0.grammar@ == 4,
        res.1.crate_grammar@ == 4,
{
    let queries = Queries {
        highlights: tree_sitter_elixir::HIGHLIGHTS_QUERY,
        jsx_highlights: None,
        injections: Some(tree_sitter_elixir::INJECTIONS_QUERY),
        locals: None,
    };
    (
        GrammarLanguage { language: tree_sitter_elixir::LANGUAGE.into(), grammar: Ghost(4) },
        Shipped { queries, crate_grammar: Ghost(4) },
    )
}

/// The `tree_sitter_go` crate: the language of grammar 5 (go) and the highlight query it ships.
#[verifier::external_body]
fn go_grammar() -> (res: (GrammarLanguage, Shipped))
    ensures
        res.0.grammar@ == 5,
        res.1.crate_grammar@ == 5,
{
    let queries = Queries {
        highlights: tree_sitter_go::HIGHLIGHTS_QUERY,
        jsx_highlights: None,
        injections: None,
        locals: None,
    };
    (
        GrammarLanguage { language: tree_sitter_go::LANGUAGE.into(), grammar: Ghost(5) },
        Shipped { queries, crate_grammar: Ghost(5) },
    )
}

/// The `tree_sitter_html` crate: the language of grammar 6 (html) and the highlight and injection queries it ships.
#[verifier::external_body]
fn html_grammar() -> (res: (GrammarLanguage, Shipped))
    ensures
        res.0.grammar@ == 6,
        res.1.crate_grammar@ == 6,
{
    let queries = Queries {
        highlights: tree_sitter_html::HIGHLIGHTS_QUERY,
        jsx_highlights: None,
        injections: Some(tree_sitter_html::INJECTIONS_QUERY),
        locals: None,
    };
    (
        GrammarLanguage { language: tree_sitter_html::LANGUAGE.into(), grammar: Ghost(6) },
        Shipped { queries, crate_grammar: Ghost(6) },
    )
}

/// The `tree_sitter_java` crate: the language of grammar 7 (java) and the highlight query it ships.
#[verifier::external_body]
fn java_grammar() -> (res: (GrammarLanguage, Shipped))
    ensures
        res.0.grammar@ == 7,
        res.1.crate_grammar@ == 7,
{
    let queries = Queries {
        highlights: tree_sitter_java::HIGHLIGHTS_QUERY,
        jsx_highlights: None,
        injections: None,
        locals: None,
    };
    (
        GrammarLanguage { language: tree_sitter_java::LANGUAGE.into(), grammar: Ghost(7) },
        Shipped { queries, crate_grammar: Ghost(7) },
    )
}

/// The `tree_sitter_javascript` crate: the language of grammar 8 (javascript) and the highlight, JSX highlight, injection and locals queries it ships.
#[verifier::external_body]
fn javascript_grammar() -> (res: (GrammarLanguage, Shipped))
    ensures
        res.0.grammar@ == 8,
        res.1.crate_grammar@ == 8,
{
    let queries = Queries {
        highlights: tree_sitter_javascript::HIGHLIGHT_QUERY,
        jsx_highlights: Some(tree_sitter_javascript::JSX_HIGHLIGHT_QUERY),
        injections: Some(tree_sitter_javascript::INJECTIONS_QUERY),
        locals: Some(tree_sitter_javascript::LOCALS_QUERY),
    };
    (
        GrammarLanguage { language: tree_sitter_javascript::LANGUAGE.into(), grammar: Ghost(8) },
        Shipped { queries, crate_grammar: Ghost(8) },
    )
}

/// The `tree_sitter_json` crate: the language of grammar 9 (json) and the highlight query it ships.
#[verifier::external_body]
fn json_grammar() -> (res: (GrammarLanguage, Shipped))
    ensures
        res.0.grammar@ == 9,
        res.1.crate_grammar@ == 9,
{
    let queries = Queries {
        highlights: tree_sitter_json::HIGHLIGHTS_QUERY,
        jsx_highlights: None,
        injections: None,
        locals: None,
    };
    (
        GrammarLanguage { language: tree_sitter_json::LANGUAGE.into(), grammar: Ghost(9) },
        Shipped { queries, crate_grammar: Ghost(9) },
    )
}

/// The `tree_sitter_python` crate: the language of grammar 10 (python) and the highlight query it ships.
#[verifier::external_body]
fn python_grammar() -> (res: (GrammarLanguage, Shipped))
    ensures
        res.0.grammar@ == 10,
        res.1.crate_grammar@ == 10,
{
    let queries = Queries {
        highlights: tree_sitter_python::HIGHLIGHTS_QUERY,
        jsx_highlights: None,
        injections: None,
        locals: None,
    };
    (
        GrammarLanguage { language: tree_sitter_python::LANGUAGE.into(), grammar: Ghost(10) },
        Shipped { queries, crate_grammar: Ghost(10) },
    )
}

/// The `tree_sitter_ruby` crate: the language of grammar 11 (ruby) and the highlight and locals queries it ships.
#[verifier::external_body]
fn ruby_grammar() -> (res: (GrammarLanguage, Shipped))
    ensures
        res.0.grammar@ == 11,
        res.1.crate_grammar@ == 11,
{
    let queries = Queries {
        highlights: tree_sitter_ruby::HIGHLIGHTS_QUERY,
        jsx_highlights: None,
        injections: None,
        locals: Some(tree_sitter_ruby::LOCALS_QUERY),
    };
    (
        GrammarLanguage { language: tree_sitter_ruby::LANGUAGE.into(), grammar: Ghost(11) },
        Shipped { queries, crate_grammar: Ghost(11) },
    )
}

/// The `tree_sitter_rust` crate: the language of grammar 12 (rust) and the highlight and injection queries it ships.
#[verifier::external_body]
fn rust_grammar() -> (res: (GrammarLanguage, Shipped))
    ensures
        res.0.grammar@ == 12,
        res.1.crate_grammar@ == 12,
{
    let queries = Queries {
        highlights: tree_sitter_rust::HIGHLIGHTS_QUERY,
        jsx_highlights: None,
        injections: Some(tree_sitter_rust::INJECTIONS_QUERY),
        locals: None,
    };
    (
        GrammarLanguage { language: tree_sitter_rust::LANGUAGE.into(), grammar: Ghost(12) },
        Shipped { queries, crate_grammar: Ghost(12) },
    )
}

/// The `tree_sitter_toml_ng` crate: the language of grammar 13 (toml) and the highlight query it ships.
#[verifier::external_body]
fn toml_grammar() -> (res: (GrammarLanguage, Shipped))
    ensures
        res.0.grammar@ == 13,
        res.1.crate_grammar@ == 13,
{
    let queries = Queries {
        highlights: tree_sitter_toml_ng::HIGHLIGHTS_QUERY,
        jsx_highlights: None,
        injections: None,
        locals: None,
    };
    (
        GrammarLanguage { language: tree_sitter_toml_ng::LANGUAGE.into(), grammar: Ghost(13) },
        Shipped { queries, crate_grammar: Ghost(13) },
    )
}

/// The `tree_sitter_typescript` crate: the languages of grammars 14 (typescript) and 15 (tsx), and the highlight and locals queries
/// it ships, which serve both.
#[verifier::external_body]
fn typescript_grammar() -> (res: (GrammarLanguage, GrammarLanguage, Shipped))
    ensures
        res.0.grammar@ == 14,
        res.1.grammar@ == 15,
        res.2.crate_grammar@ == 14,
{
    let queries = Queries {
        highlights: tree_sitter_typescript::HIGHLIGHTS_QUERY,
        jsx_highlights: None,
        injections: None,
        locals: Some(tree_sitter_typescript::LOCALS_QUERY),
    };
    (
        GrammarLanguage { language: tree_sitter_typescript::LANGUAGE_TYPESCRIPT.into(), grammar: Ghost(14) },
        GrammarLanguage { language: tree_sitter_typescript::LANGUAGE_TSX.into(), grammar: Ghost(15) },
        Shipped { queries, crate_grammar: Ghost(14) },
    )
}

/// The `tree_sitter_yaml` crate: the language of grammar 16 (yaml) and the highlight query it ships.
#[verifier::external_body]
fn yaml_grammar() -> (res: (GrammarLanguage, Shipped))
    ensures
        res.0.grammar@ == 16,
        res.1.crate_grammar@ == 16,
{
    let queries = Queries {
        highlights: tree_sitter_yaml::HIGHLIGHTS_QUERY,
        jsx_highlights: None,
        injections: None,
        locals: None,
    };
    (
        GrammarLanguage { language: tree_sitter_yaml::LANGUAGE.into(), grammar: Ghost(16) },
        Shipped { queries, crate_grammar: Ghost(16) },
    )
}


/// `HighlightConfiguration::new`: compiles the queries of a grammar for its language into a
/// configuration whose `language_name` is `name`, recognizing no highlight names yet. It fails
/// exactly when tree-sitter rejects one of the queries for that language, which depends on the
/// language and the queries alone; nothing is stated of the error.
#[verifier::external_body]
fn new_config(
    language: GrammarLanguage,
    name: &str,
    highlights: &str,
    injections: &str,
    locals: &str,
) -> (res: Result<Config, QueryError>)
    ensures
        res is Ok <==> queries_compile(
            language.grammar@,
            highlights@,
            injections@,
            locals@,
        ),
        res matches Ok(c) ==> c.source@ == (ConfigSource {
            language: language.grammar@,
            name: name@,
            highlights: highlights@,
            injections: injections@,
            locals: locals@,
        }) && c.recognized@ == Seq::<Seq<char>>::empty(),
{
    let config = HighlightConfiguration::new(language.language, name, highlights, injections, locals)?;
    let source = Ghost(ConfigSource {
        language: language.grammar@,
        name: name@,
        highlights: highlights@,
        injections: injections@,
        locals: locals@,
    });
    Ok(Config { config, source, recognized: Ghost(Seq::empty()) })
}

/// The text of a `QueryError`, as its `Display` writes it. Nothing is stated of it.
#[verifier::external_body]
fn query_error_text(err: &QueryError) -> String {
    format!("{err}")
}

/// `HighlightConfiguration::configure`: sets the highlight names the configuration recognizes to
/// `names`; what it was compiled from stays.
#[verifier::external_body]
fn configure(config: &mut Config, names: &Vec<&'static str>)
    ensures
        final(config).source == old(config).source,
        final(config).recognized@ == names@.map_values(|n: &'static str| n@),
{
    config.config.configure(names);
    config.recognized = Ghost(names@.map_values(|n: &'static str| n@));
}

/// Capture names reported by the highlighter. A capture such as `function.method` falls back to
/// its longest listed prefix, and each name is rendered as an `hl-*` CSS class (dots become
/// dashes).
pub open spec fn highlight_names() -> Seq<Seq<char>> {
    seq![
        "attribute"@,
        "boolean"@,
        "comment"@,
        "constant"@,
        "constant.builtin"@,
        "constructor"@,
        "escape"@,
        "function"@,
        "function.builtin"@,
        "function.macro"@,
        "keyword"@,
        "label"@,
        "module"@,
        "namespace"@,
        "number"@,
        "operator"@,
        "property"@,
        "punctuation.special"@,
        "string"@,
        "string.escape"@,
        "string.regex"@,
        "string.special"@,
        "tag"@,
        "type"@,
        "type.builtin"@,
        "variable.builtin"@,
        "variable.parameter"@,
    ]
}

fn highlight_name_list() -> (names: Vec<&'static str>)
    ensures
        names@.len() == highlight_names().len(),
        forall|i: int| 0 <= i < names@.len() ==> #[trigger] names@[i]@ == highlight_names()[i],
{
    let names = vec![
        "attribute",
        "boolean",
        "comment",
        "constant",
        "constant.builtin",
        "constructor",
        "escape",
        "function",
        "function.builtin",
        "function.macro",
        "keyword",
        "label",
        "module",
        "namespace",
        "number",
        "operator",
        "property",
        "punctuation.special",
        "string",
        "string.escape",
        "string.regex",
        "string.special",
        "tag",
        "type",
        "type.builtin",
        "variable.builtin",
        "variable.parameter",
    ];
    names
}

/// The bytes `bs` with each `.` made a `-`.
pub open spec fn dashed(bs: Seq<u8>) -> Seq<u8> {
    bs.map_values(|b: u8| if b == 46 { 45u8 } else { b })
}

/// The attribute that marks a token highlighted as name `index`: `class="hl-<name>"`.
pub open spec fn class_attribute(index: int) -> Seq<u8> {
    encode_utf8("class=\"hl-"@) + dashed(encode_utf8(highlight_names()[index])) + seq![34u8]
}

/// Appends the attribute for highlight name `index`; nothing for an index past the names.
pub fn push_class_attribute(out: &mut Vec<u8>, index: usize)
    ensures
        final(out)@ == old(out)@ + if index < highlight_names().len() {
            class_attribute(index as int)
        } else {
            Seq::empty()
        },
{
    let names = highlight_name_list();
    if index >= names.len() {
        assert(old(out)@ + Seq::<u8>::empty() =~= old(out)@);
        return ;
    }
    let prefix = "class=\"hl-".as_bytes();
    let mut i: usize = 0;
    while i < prefix.len()
        invariant
            0 <= i <= prefix@.len(),
            out@ == old(out)@ + prefix@.take(i as int),
        decreases prefix@.len() - i,
    {
        out.push(prefix[i]);
        assert(prefix@.take(i + 1) =~= prefix@.take(i as int).push(prefix@[i as int]));
        i += 1;
    }
    assert(prefix@.take(i as int) =~= prefix@);
    let ghost mid = out@;
    let name = names[index].as_bytes();
    let mut j: usize = 0;
    while j < name.len()
        invariant
            0 <= j <= name@.len(),
            out@ == mid + dashed(name@.take(j as int)),
        decreases name@.len() - j,
    {
        let b = name[j];
        out.push(if b == 46 { 45u8 } else { b });
        assert(dashed(name@.take(j + 1)) =~= dashed(name@.take(j as int)).push(
            if b == 46 { 45u8 } else { b },
        ));
        j += 1;
    }
    assert(name@.take(j as int) =~= name@);
    out.push(34u8);
    assert(out@ =~= old(out)@ + class_attribute(index as int));
}

/// The compiled grammars, in the order of `aliases`, with the crate queries each was compiled
/// from.
pub struct Grammars {
    configs: Vec<Config>,
    shipped: Ghost<Seq<(Shipped, Shipped)>>,
}

/// What grammar `grammar` is compiled from, given the queries of its own crate and of the crate it
/// builds on: its own language, named after the first name it answers to, with the queries that
/// `assembled` puts together.
pub open spec fn grammar_source(grammar: int, own: Queries, base: Queries) -> ConfigSource {
    let (highlights, injections, locals) = assembled(grammar, own, base);
    ConfigSource { language: grammar, name: aliases(grammar)[0], highlights, injections, locals }
}

/// The pair holds the queries of the crates of grammar `grammar`: its own and the one it builds on.
pub open spec fn from_its_crates(grammar: int, shipped: (Shipped, Shipped)) -> bool {
    &&& shipped.0.crate_grammar@ == own_crate(grammar)
    &&& shipped.1.crate_grammar@ == base_crate(grammar)
}

/// Whether the queries of grammar `grammar`, put together from `shipped`, compile for its language.
pub open spec fn grammar_compiles(grammar: int, shipped: (Shipped, Shipped)) -> bool {
    let s = grammar_source(grammar, shipped.0.queries, shipped.1.queries);
    queries_compile(s.language, s.highlights, s.injections, s.locals)
}

impl Grammars {
    /// The crate queries grammar `g` was compiled from: its own crate's and those of the crate it
    /// builds on.
    pub closed spec fn shipped_for(self, g: int) -> (Shipped, Shipped) {
        self.shipped@[g]
    }

    /// What configuration `g` was compiled from.
    pub closed spec fn source_of(self, g: int) -> ConfigSource {
        self.configs@[g].source@
    }

    /// The highlight names configuration `g` recognizes.
    pub closed spec fn recognized_by(self, g: int) -> Seq<Seq<char>> {
        self.configs@[g].recognized@
    }

    /// The number of configurations.
    pub closed spec fn count(self) -> int {
        self.configs@.len() as int
    }

    /// Configuration `g` is grammar `g`, compiled from the queries of its crates put together as
    /// `assembled` says, and configured to recognize `highlight_names()`.
    pub open spec fn holds_grammar(self, g: int) -> bool {
        let shipped = self.shipped_for(g);
        &&& from_its_crates(g, shipped)
        &&& grammar_compiles(g, shipped)
        &&& self.source_of(g) == grammar_source(g, shipped.0.queries, shipped.1.queries)
        &&& self.recognized_by(g) == highlight_names()
    }

    /// Every grammar has its configuration, in the order of `aliases`.
    pub open spec fn holds_every_grammar(self) -> bool {
        &&& self.count() == GRAMMAR_COUNT
        &&& forall|g: int| 0 <= g < GRAMMAR_COUNT ==> #[trigger] self.holds_grammar(g)
    }

    #[verifier::type_invariant]
    spec fn well_formed(self) -> bool {
        self.holds_every_grammar()
    }
}

/// Builds the configuration of grammar `grammar` from the queries of its crates, or fails when
/// tree-sitter rejects them; the second value is the crate queries it was built from.
fn grammar_config(grammar: usize) -> (res: (Result<Config, QueryError>, Ghost<(Shipped, Shipped)>))
    requires
        grammar < GRAMMAR_COUNT,
    ensures
        from_its_crates(grammar as int, res.1@),
        res.0 is Ok <==> grammar_compiles(grammar as int, res.1@),
        res.0 matches Ok(c) ==> c.source@ == grammar_source(
            grammar as int,
            res.1@.0.queries,
            res.1@.1.queries,
        ) && c.recognized@ == Seq::<Seq<char>>::empty(),
{
    let names = grammar_aliases(grammar);
    let name = names[0];
    let (language, own) = if grammar == 0 {
        bash_grammar()
    } else if grammar == 1 {
        c_grammar()
    } else if grammar == 2 {
        cpp_grammar()
    } else if grammar == 3 {
        css_grammar()
    } else if grammar == 4 {
        elixir_grammar()
    } else if grammar == 5 {
        go_grammar()
    } else if grammar == 6 {
        html_grammar()
    } else if grammar == 7 {
        java_grammar()
    } else if grammar == 8 {
        javascript_grammar()
    } else if grammar == 9 {
        json_grammar()
    } else if grammar == 10 {
        python_grammar()
    } else if grammar == 11 {
        ruby_grammar()
    } else if grammar == 12 {
        rust_grammar()
    } else if grammar == 13 {
        toml_grammar()
    } else if grammar == 14 || grammar == 15 {
        let (typescript, tsx, shipped) = typescript_grammar();
        (if grammar == 14 { typescript } else { tsx }, shipped)
    } else {
        yaml_grammar()
    };
    let base = if grammar == 2 {
        c_grammar().1
    } else if grammar == 14 || grammar == 15 {
        javascript_grammar().1
    } else {
        own
    };
    let (highlights, injections, locals) = assemble_queries(grammar, &own.queries, &base.queries);
    let config = new_config(language, name, highlights.as_str(), injections.as_str(), locals.as_str());
    (config, Ghost((own, base)))
}

/// How the message for a grammar whose queries do not compile starts.
pub open spec fn invalid_query_prefix(grammar: int) -> Seq<char> {
    "invalid "@ + aliases(grammar)[0] + " highlight query: "@
}

/// `grammar` is the first grammar whose queries do not compile, each grammar up to it given the
/// queries of its crates in `shipped`.
pub open spec fn first_failing(grammar: int, shipped: Seq<(Shipped, Shipped)>) -> bool {
    &&& 0 <= grammar < GRAMMAR_COUNT
    &&& shipped.len() == grammar + 1
    &&& forall|h: int| 0 <= h <= grammar ==> #[trigger] from_its_crates(h, shipped[h])
    &&& forall|h: int| 0 <= h < grammar ==> #[trigger] grammar_compiles(h, shipped[h])
    &&& !grammar_compiles(grammar, shipped[grammar])
}

impl Grammars {
    /// Compiles every grammar from the queries of its crates and configures it with the highlight
    /// names, or tells which is the first grammar whose queries do not compile.
    pub fn new() -> (res: Result<Grammars, String>)
        ensures
            res matches Ok(grammars) ==> grammars.holds_every_grammar(),
            res matches Err(message) ==> exists|g: int, shipped: Seq<(Shipped, Shipped)>|
                #[trigger] first_failing(g, shipped) && invalid_query_prefix(g).is_prefix_of(
                    message@,
                ),
    {
        let names = highlight_name_list();
        proof {
            assert(names@.map_values(|n: &'static str| n@) =~= highlight_names());
        }
        let mut configs: Vec<Config> = Vec::new();
        let ghost mut shipped: Seq<(Shipped, Shipped)> = Seq::empty();
        let mut g: usize = 0;
        while g < GRAMMAR_COUNT
            invariant
                g <= GRAMMAR_COUNT,
                configs@.len() == g,
                shipped.len() == g,
                names@.map_values(|n: &'static str| n@) == highlight_names(),
                forall|h: int|
                    0 <= h < g ==> {
                        &&& #[trigger] from_its_crates(h, shipped[h])
                        &&& grammar_compiles(h, shipped[h])
                        &&& configs@[h].source@ == grammar_source(
                            h,
                            shipped[h].0.queries,
                            shipped[h].1.queries,
                        )
                        &&& configs@[h].recognized@ == highlight_names()
                    },
            decreases GRAMMAR_COUNT - g,
        {
            let (built, Ghost(pair)) = grammar_config(g);
            match built {
                Ok(mut config) => {
                    configure(&mut config, &names);
                    configs.push(config);
                    proof {
                        shipped = shipped.push(pair);
                    }
                },
                Err(err) => {
                    let names_of_g = grammar_aliases(g);
                    let mut message = String::new();
                    message.push_str("invalid ");
                    message.push_str(names_of_g[0]);
                    message.push_str(" highlight query: ");
                    let ghost head = message@;
                    message.push_str(&query_error_text(&err));
                    assert(names_of_g@[0]@ == aliases(g as int)[0]);
                    assert(head =~= "invalid "@ + aliases(g as int)[0] + " highlight query: "@);
                    assert(message@.take(head.len() as int) =~= head);
                    let ghost all = shipped.push(pair);
                    assert forall|h: int| 0 <= h <= g implies #[trigger] from_its_crates(
                        h,
                        all[h],
                    ) by {
                        if h < g {
                            assert(all[h] == shipped[h]);
                        }
                    }
                    assert forall|h: int| 0 <= h < g implies #[trigger] grammar_compiles(
                        h,
                        all[h],
                    ) by {
                        assert(all[h] == shipped[h]);
                        assert(from_its_crates(h, shipped[h]));
                    }
                    assert(first_failing(g as int, all));
                    assert(invalid_query_prefix(g as int).is_prefix_of(message@));
                    return Err(message);
                },
            }
            g += 1;
        }
        proof {
            assert forall|h: int| 0 <= h < GRAMMAR_COUNT implies (Grammars {
                configs,
                shipped: Ghost(shipped),
            }).holds_grammar(h) by {
                assert(from_its_crates(h, shipped[h]));
            }
        }
        Ok(Grammars { configs, shipped: Ghost(shipped) })
    }
}


/// The HTML that tree-sitter makes of `code` with the configuration of grammar `grammar`, compiled
/// from the queries its crates ship as `holds_grammar` says and configured to recognize
/// `highlight_names()`, languages injected into it looked up by `find` among the configurations
/// of every grammar: escaped text with `<span class="hl-*">` tokens, or `None` when highlighting
/// fails.
pub uninterp spec fn highlighted_html(grammar: int, code: Seq<char>) -> Option<Seq<char>>;

/// The view of an optional string.
pub open spec fn opt_string(s: Option<String>) -> Option<Seq<char>> {
    match s {
        Some(s) => Some(s@),
        None => None,
    }
}

/// `Highlighter::highlight` with configuration `grammar` of `grammars` and languages injected into
/// it looked up by `find`, rendered by `HtmlRenderer::render` with `push_class_attribute` for the
/// attributes and its lines joined. Each configuration holds its grammar as `holds_grammar` says,
/// and the queries its crates ship are fixed, so the result is named `highlighted_html` of the
/// grammar and the code.
#[verifier::external_body]
fn render_highlighted(grammars: &Grammars, grammar: usize, code: &str) -> (res: Option<String>)
    requires
        grammar < GRAMMAR_COUNT,
        grammars.holds_every_grammar(),
    ensures
        opt_string(res) == highlighted_html(grammar as int, code@),
{
    let configs = &grammars.configs;
    let mut highlighter = Highlighter::new();
    let events = highlighter.highlight(&configs[grammar].config, code.as_bytes(), None, None, |name| {
        find(name).map(|i| &configs[i].config)
    }).ok()?;
    let mut renderer = HtmlRenderer::new();
    renderer.render(events, code.as_bytes(), &|h, out| push_class_attribute(out, h.0)).ok()?;
    Some(renderer.lines().collect())
}

/// What `highlight` gives: the highlighted HTML when `lang` names a grammar.
pub open spec fn highlight_of(lang: Seq<char>, code: Seq<char>) -> Option<Seq<char>> {
    match grammar_for(lang) {
        Some(g) => highlighted_html(g, code),
        None => None,
    }
}

/// Renders `code` as escaped HTML with `<span class="hl-*">` tokens, or returns `None` when the
/// language is not supported.
pub fn highlight(grammars: &Grammars, lang: &str, code: &str) -> (res: Option<String>)
    ensures
        opt_string(res) == highlight_of(lang@, code@),
{
    proof {
        use_type_invariant(grammars);
    }
    match find(lang) {
        Some(g) => render_highlighted(grammars, g, code),
        None => None,
    }
}

} // verus!
