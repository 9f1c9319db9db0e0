//! The query language: terms, the tokenizer, and the parser that turns a
//! raw query string into a [`Query`].
//!
//! Tokens are separated by spaces. A backslash copies the next character
//! verbatim, and a double-quoted span is copied literally, spaces included.
//! A token that starts with `-` is an exclusion; any other token is an
//! inclusion. A token that starts with a known marker (`prefix:`, `ext:`,
//! `#`, ...) followed by at least one character becomes a typed term; any
//! other token is a fuzzy term.

use vstd::prelude::*;

use crate::text::{chars_of, string_of, starts_with};

verus! {

/// The kind of a query term, without its text.
#[derive(Clone, Copy, Debug, PartialEq, Eq, Structural)]
pub enum TermKind {
    Fuzzy,
    Prefix,
    Suffix,
    SuffixName,
    Extension,
    Mime,
    Tag,
    Exact,
    Regex,
    Before,
    After,
}

/// One parsed atom of a query.
#[derive(Debug, Clone, PartialEq, Eq)]
pub enum Term {
    /// Ranks files by fuzzy matching against their path; never filters.
    NormalFuzzy(String),
    /// The file name starts with the text.
    Prefix(String),
    /// The file name ends with the text.
    Suffix(String),
    /// The file stem, cut at its first dot, ends with the text.
    SuffixName(String),
    /// The file extension equals the text.
    Extension(String),
    /// The content data type equals the text.
    Mime(String),
    /// The file carries the text as a tag.
    Tag(String),
    /// The file name contains the text.
    Exact(String),
    /// The file name matches the text as a regular expression.
    Regex(String),
    /// Last modified before the given day (`YYYY-MM-DD`, UTC) began.
    Before(String),
    /// Last modified after the given day (`YYYY-MM-DD`, UTC) ended.
    After(String),
}

/// A term as a value: its kind and its text.
pub type TermView = (TermKind, Seq<char>);

impl View for Term {
    type V = TermView;

    open spec fn view(&self) -> TermView {
        match self {
            Term::NormalFuzzy(s) => (TermKind::Fuzzy, s@),
            Term::Prefix(s) => (TermKind::Prefix, s@),
            Term::Suffix(s) => (TermKind::Suffix, s@),
            Term::SuffixName(s) => (TermKind::SuffixName, s@),
            Term::Extension(s) => (TermKind::Extension, s@),
            Term::Mime(s) => (TermKind::Mime, s@),
            Term::Tag(s) => (TermKind::Tag, s@),
            Term::Exact(s) => (TermKind::Exact, s@),
            Term::Regex(s) => (TermKind::Regex, s@),
            Term::Before(s) => (TermKind::Before, s@),
            Term::After(s) => (TermKind::After, s@),
        }
    }
}

impl Term {
    /// The term of the given kind holding `text`.
    pub fn from_kind(kind: TermKind, text: String) -> (r: Term)
        ensures
            r@ == (kind, text@),
    {
        match kind {
            TermKind::Fuzzy => Term::NormalFuzzy(text),
            TermKind::Prefix => Term::Prefix(text),
            TermKind::Suffix => Term::Suffix(text),
            TermKind::SuffixName => Term::SuffixName(text),
            TermKind::Extension => Term::Extension(text),
            TermKind::Mime => Term::Mime(text),
            TermKind::Tag => Term::Tag(text),
            TermKind::Exact => Term::Exact(text),
            TermKind::Regex => Term::Regex(text),
            TermKind::Before => Term::Before(text),
            TermKind::After => Term::After(text),
        }
    }

    pub fn kind(&self) -> (r: TermKind)
        ensures
            r == self@.0,
    {
        match self {
            Term::NormalFuzzy(_) => TermKind::Fuzzy,
            Term::Prefix(_) => TermKind::Prefix,
            Term::Suffix(_) => TermKind::Suffix,
            Term::SuffixName(_) => TermKind::SuffixName,
            Term::Extension(_) => TermKind::Extension,
            Term::Mime(_) => TermKind::Mime,
            Term::Tag(_) => TermKind::Tag,
            Term::Exact(_) => TermKind::Exact,
            Term::Regex(_) => TermKind::Regex,
            Term::Before(_) => TermKind::Before,
            Term::After(_) => TermKind::After,
        }
    }

    pub fn text(&self) -> (r: &String)
        ensures
            r@ == self@.1,
    {
        match self {
            Term::NormalFuzzy(s) => s,
            Term::Prefix(s) => s,
            Term::Suffix(s) => s,
            Term::SuffixName(s) => s,
            Term::Extension(s) => s,
            Term::Mime(s) => s,
            Term::Tag(s) => s,
            Term::Exact(s) => s,
            Term::Regex(s) => s,
            Term::Before(s) => s,
            Term::After(s) => s,
        }
    }
}

/// A parsed query: every include must hold, no exclude may hold.
#[derive(Debug, Clone, PartialEq, Eq)]
pub struct Query {
    pub includes: Vec<Term>,
    pub excludes: Vec<Term>,
}

/// A query as a value: the includes, then the excludes.
pub type QueryView = (Seq<TermView>, Seq<TermView>);

pub open spec fn terms_view(ts: Seq<Term>) -> Seq<TermView> {
    ts.map_values(|t: Term| t@)
}

impl View for Query {
    type V = QueryView;

    open spec fn view(&self) -> QueryView {
        (terms_view(self.includes@), terms_view(self.excludes@))
    }
}

/// Why a query string could not be parsed.
#[derive(Clone, Copy, Debug, PartialEq, Eq, Structural)]
pub enum QueryError {
    /// The query ends with a backslash that has nothing to escape.
    DanglingEscape,
    /// A double-quoted span is never closed.
    UnterminatedQuote,
}

pub const MARKER_COUNT: usize = 28;

/// The markers that introduce typed terms, in the order they are tried.
pub open spec fn marker(i: int) -> (Seq<char>, TermKind) {
    if i == 0 {
        (seq!['r', 'e', 'g', 'e', 'x', ':'], TermKind::Regex)
    } else if i == 1 {
        (seq!['r', 'e', ':'], TermKind::Regex)
    } else if i == 2 {
        (seq!['r', ':'], TermKind::Regex)
    } else if i == 3 {
        (seq!['r', 'e', 'g', 'e', 'x', 'p', ':'], TermKind::Regex)
    } else if i == 4 {
        (seq!['r', 'g', 'x', ':'], TermKind::Regex)
    } else if i == 5 {
        (seq!['p', 'r', 'e', 'f', 'i', 'x', ':'], TermKind::Prefix)
    } else if i == 6 {
        (seq!['p', 'r', 'e', ':'], TermKind::Prefix)
    } else if i == 7 {
        (seq!['s', 't', 'a', 'r', 't', ':'], TermKind::Prefix)
    } else if i == 8 {
        (seq!['s', 't', 'a', 'r', 't', 's', '_', 'w', 'i', 't', 'h', ':'], TermKind::Prefix)
    } else if i == 9 {
        (seq!['p', 'f', 'x', ':'], TermKind::Prefix)
    } else if i == 10 {
        (seq!['e', 'x', 't', 'e', 'n', 's', 'i', 'o', 'n', ':'], TermKind::Extension)
    } else if i == 11 {
        (seq!['e', 'x', 't', ':'], TermKind::Extension)
    } else if i == 12 {
        (seq!['f', 'i', 'l', 'e', ':'], TermKind::Extension)
    } else if i == 13 {
        (seq!['s', 'u', 'f', 'f', 'i', 'x', '_', 'n', 'a', 'm', 'e', ':'], TermKind::SuffixName)
    } else if i == 14 {
        (seq!['s', 'u', 'f', 'f', 'i', 'x', ':'], TermKind::Suffix)
    } else if i == 15 {
        (seq!['s', 'u', 'f', ':'], TermKind::Suffix)
    } else if i == 16 {
        (seq!['e', 'n', 'd', ':'], TermKind::Suffix)
    } else if i == 17 {
        (seq!['e', 'n', 'd', 's', '_', 'w', 'i', 't', 'h', ':'], TermKind::Suffix)
    } else if i == 18 {
        (seq!['s', 'f', 'x', ':'], TermKind::Suffix)
    } else if i == 19 {
        (seq!['b', 'e', 'f', 'o', 'r', 'e', ':'], TermKind::Before)
    } else if i == 20 {
        (seq!['a', 'f', 't', 'e', 'r', ':'], TermKind::After)
    } else if i == 21 {
        (seq!['m', 'i', 'm', 'e', ':'], TermKind::Mime)
    } else if i == 22 {
        (seq!['#'], TermKind::Tag)
    } else if i == 23 {
        (seq!['t', 'a', 'g', ':'], TermKind::Tag)
    } else if i == 24 {
        (seq!['t', 'a', 'g', 's', ':'], TermKind::Tag)
    } else if i == 25 {
        (seq!['t', 'a', 'g', 'g', 'e', 'd', ':'], TermKind::Tag)
    } else if i == 26 {
        (seq!['@'], TermKind::Exact)
    } else if i == 27 {
        (seq!['e', 'x', 'a', 'c', 't', ':'], TermKind::Exact)
    } else {
        (Seq::empty(), TermKind::Fuzzy)
    }
}

fn marker_at(i: usize) -> (r: (Vec<char>, TermKind))
    requires
        i < MARKER_COUNT,
    ensures
        r.0@ == marker(i as int).0,
        r.1 == marker(i as int).1,
{
    match i {
        0 => (vec!['r', 'e', 'g', 'e', 'x', ':'], TermKind::Regex),
        1 => (vec!['r', 'e', ':'], TermKind::Regex),
        2 => (vec!['r', ':'], TermKind::Regex),
        3 => (vec!['r', 'e', 'g', 'e', 'x', 'p', ':'], TermKind::Regex),
        4 => (vec!['r', 'g', 'x', ':'], TermKind::Regex),
        5 => (vec!['p', 'r', 'e', 'f', 'i', 'x', ':'], TermKind::Prefix),
        6 => (vec!['p', 'r', 'e', ':'], TermKind::Prefix),
        7 => (vec!['s', 't', 'a', 'r', 't', ':'], TermKind::Prefix),
        8 => (vec!['s', 't', 'a', 'r', 't', 's', '_', 'w', 'i', 't', 'h', ':'], TermKind::Prefix),
        9 => (vec!['p', 'f', 'x', ':'], TermKind::Prefix),
        10 => (vec!['e', 'x', 't', 'e', 'n', 's', 'i', 'o', 'n', ':'], TermKind::Extension),
        11 => (vec!['e', 'x', 't', ':'], TermKind::Extension),
        12 => (vec!['f', 'i', 'l', 'e', ':'], TermKind::Extension),
        13 => (vec!['s', 'u', 'f', 'f', 'i', 'x', '_', 'n', 'a', 'm', 'e', ':'], TermKind::SuffixName),
        14 => (vec!['s', 'u', 'f', 'f', 'i', 'x', ':'], TermKind::Suffix),
        15 => (vec!['s', 'u', 'f', ':'], TermKind::Suffix),
        16 => (vec!['e', 'n', 'd', ':'], TermKind::Suffix),
        17 => (vec!['e', 'n', 'd', 's', '_', 'w', 'i', 't', 'h', ':'], TermKind::Suffix),
        18 => (vec!['s', 'f', 'x', ':'], TermKind::Suffix),
        19 => (vec!['b', 'e', 'f', 'o', 'r', 'e', ':'], TermKind::Before),
        20 => (vec!['a', 'f', 't', 'e', 'r', ':'], TermKind::After),
        21 => (vec!['m', 'i', 'm', 'e', ':'], TermKind::Mime),
        22 => (vec!['#'], TermKind::Tag),
        23 => (vec!['t', 'a', 'g', ':'], TermKind::Tag),
        24 => (vec!['t', 'a', 'g', 's', ':'], TermKind::Tag),
        25 => (vec!['t', 'a', 'g', 'g', 'e', 'd', ':'], TermKind::Tag),
        26 => (vec!['@'], TermKind::Exact),
        27 => (vec!['e', 'x', 'a', 'c', 't', ':'], TermKind::Exact),
        _ => (Vec::new(), TermKind::Fuzzy),
    }
}

/// A marker applies to a token when the token starts with it and has at
/// least one more character.
pub open spec fn marker_applies(tok: Seq<char>, i: int) -> bool {
    crate::text::has_prefix(tok, marker(i).0) && tok.len() > marker(i).0.len()
}

/// The term a token denotes, trying the markers from index `i` on.
pub open spec fn recognize_from(tok: Seq<char>, i: int) -> TermView
    decreases MARKER_COUNT - i,
{
    if i < 0 || i >= MARKER_COUNT {
        (TermKind::Fuzzy, tok)
    } else if marker_applies(tok, i) {
        (marker(i).1, tok.skip(marker(i).0.len() as int))
    } else {
        recognize_from(tok, i + 1)
    }
}

/// The term a token denotes: the first marker that applies gives the kind
/// and the rest of the token is the text; with none, a fuzzy term.
pub open spec fn term_of(tok: Seq<char>) -> TermView {
    recognize_from(tok, 0)
}

fn skip_chars(v: &Vec<char>, n: usize) -> (r: Vec<char>)
    requires
        n <= v.len(),
    ensures
        r@ == v@.skip(n as int),
{
    let mut r: Vec<char> = Vec::new();
    let mut i: usize = n;
    while i < v.len()
        invariant
            n <= i <= v.len(),
            r@ == v@.subrange(n as int, i as int),
        decreases v.len() - i,
    {
        r.push(v[i]);
        i = i + 1;
    }
    r
}

fn term_of_chars(tok: &Vec<char>) -> (r: Term)
    ensures
        r@ == term_of(tok@),
{
    let mut i: usize = 0;
    while i < MARKER_COUNT
        invariant
            i <= MARKER_COUNT,
            term_of(tok@) == recognize_from(tok@, i as int),
        decreases MARKER_COUNT - i,
    {
        let (m, kind) = marker_at(i);
        if tok.len() > m.len() && starts_with(tok, &m) {
            let rest = skip_chars(tok, m.len());
            return Term::from_kind(kind, string_of(&rest));
        }
        i = i + 1;
    }
    Term::NormalFuzzy(string_of(tok))
}

/// Parses one token into a term.
pub fn parse_term(token: &str) -> (r: Term)
    ensures
        r@ == term_of(token@),
{
    term_of_chars(&chars_of(token))
}

/// Where the tokenizer stands inside the token it is building.
#[derive(Clone, Copy, Debug, PartialEq, Eq, Structural)]
pub enum LexMode {
    /// Outside quotes, no escape pending.
    Plain,
    /// After a backslash: the next character is copied verbatim.
    Escaped,
    /// Inside a double-quoted span.
    Quoted,
}

/// The tokenizer's state: the tokens emitted so far, the token being built,
/// whether a quoted span opened that token, and the mode.
pub type LexState = (Seq<Seq<char>>, Seq<char>, bool, LexMode);

pub open spec fn lex_start() -> LexState {
    (Seq::empty(), Seq::empty(), false, LexMode::Plain)
}

/// The tokenizer's step on one character.
pub open spec fn lex_step(st: LexState, c: char) -> LexState {
    let (tokens, current, started, mode) = st;
    match mode {
        LexMode::Escaped => (tokens, current.push(c), started, LexMode::Plain),
        LexMode::Quoted => if c == '"' {
            (tokens, current, started, LexMode::Plain)
        } else {
            (tokens, current.push(c), started, LexMode::Quoted)
        },
        LexMode::Plain => if c == '\\' {
            (tokens, current, started, LexMode::Escaped)
        } else if c == '"' {
            (tokens, current, true, LexMode::Quoted)
        } else if c == ' ' {
            (tokens.push(current), Seq::empty(), false, LexMode::Plain)
        } else {
            (tokens, current.push(c), started, LexMode::Plain)
        },
    }
}

/// The tokenizer's state after the first `n` characters of `s`.
pub open spec fn lex_prefix(s: Seq<char>, n: int) -> LexState
    decreases n,
{
    if n <= 0 {
        lex_start()
    } else {
        lex_step(lex_prefix(s, n - 1), s[n - 1])
    }
}

/// The tokens of a whole query string: a pending escape or an open quote
/// at the end is an error; a last token is kept when it has characters or
/// was opened by a quote.
pub open spec fn tokens_of(s: Seq<char>) -> Result<Seq<Seq<char>>, QueryError> {
    let (tokens, current, started, mode) = lex_prefix(s, s.len() as int);
    match mode {
        LexMode::Escaped => Err(QueryError::DanglingEscape),
        LexMode::Quoted => Err(QueryError::UnterminatedQuote),
        LexMode::Plain => Ok(
            if current.len() > 0 || started {
                tokens.push(current)
            } else {
                tokens
            },
        ),
    }
}

pub open spec fn strings_view(ts: Seq<String>) -> Seq<Seq<char>> {
    ts.map_values(|t: String| t@)
}

proof fn lemma_strings_view_push(ts: Seq<String>, t: String)
    ensures
        strings_view(ts.push(t)) == strings_view(ts).push(t@),
{
    assert(strings_view(ts.push(t)) =~= strings_view(ts).push(t@));
}

/// Splits a query string into tokens.
pub fn tokenize(query: &str) -> (r: Result<Vec<String>, QueryError>)
    ensures
        match tokens_of(query@) {
            Ok(toks) => r is Ok && strings_view(r->Ok_0@) == toks,
            Err(e) => r == Err::<Vec<String>, QueryError>(e),
        },
{
    let s = chars_of(query);
    let mut tokens: Vec<String> = Vec::new();
    let mut current: Vec<char> = Vec::new();
    let mut started = false;
    let mut mode = LexMode::Plain;
    let mut i: usize = 0;
    assert(strings_view(tokens@) =~= Seq::empty());
    while i < s.len()
        invariant
            i <= s.len(),
            s@ == query@,
            lex_prefix(s@, i as int) == (strings_view(tokens@), current@, started, mode),
        decreases s.len() - i,
    {
        let c = s[i];
        match mode {
            LexMode::Escaped => {
                current.push(c);
                mode = LexMode::Plain;
            },
            LexMode::Quoted => {
                if c == '"' {
                    mode = LexMode::Plain;
                } else {
                    current.push(c);
                }
            },
            LexMode::Plain => {
                if c == '\\' {
                    mode = LexMode::Escaped;
                } else if c == '"' {
                    started = true;
                    mode = LexMode::Quoted;
                } else if c == ' ' {
                    let t = string_of(&current);
                    proof {
                        lemma_strings_view_push(tokens@, t);
                    }
                    tokens.push(t);
                    current = Vec::new();
                    started = false;
                } else {
                    current.push(c);
                }
            },
        }
        i = i + 1;
    }
    match mode {
        LexMode::Escaped => Err(QueryError::DanglingEscape),
        LexMode::Quoted => Err(QueryError::UnterminatedQuote),
        LexMode::Plain => {
            if current.len() > 0 || started {
                let t = string_of(&current);
                proof {
                    lemma_strings_view_push(tokens@, t);
                }
                tokens.push(t);
            }
            Ok(tokens)
        },
    }
}

/// A token routed to the excludes: its leading `-` is dropped and a fuzzy
/// term becomes an exact one.
pub open spec fn exclude_term_of(tok: Seq<char>) -> TermView {
    let t = term_of(tok.drop_first());
    if t.0 == TermKind::Fuzzy {
        (TermKind::Exact, t.1)
    } else {
        t
    }
}

pub open spec fn is_negated(tok: Seq<char>) -> bool {
    tok.len() > 0 && tok[0] == '-'
}

/// The query that a sequence of tokens denotes.
pub open spec fn query_of(toks: Seq<Seq<char>>) -> QueryView
    decreases toks.len(),
{
    if toks.len() == 0 {
        (Seq::empty(), Seq::empty())
    } else {
        let q = query_of(toks.drop_last());
        let t = toks.last();
        if is_negated(t) {
            (q.0, q.1.push(exclude_term_of(t)))
        } else {
            (q.0.push(term_of(t)), q.1)
        }
    }
}

/// The result of parsing a query string.
pub open spec fn parsed(s: Seq<char>) -> Result<QueryView, QueryError> {
    match tokens_of(s) {
        Ok(toks) => Ok(query_of(toks)),
        Err(e) => Err(e),
    }
}

proof fn lemma_terms_view_push(ts: Seq<Term>, t: Term)
    ensures
        terms_view(ts.push(t)) == terms_view(ts).push(t@),
{
    assert(terms_view(ts.push(t)) =~= terms_view(ts).push(t@));
}

/// Parses a query string: tokenizes it, then turns each token into an
/// include or, when it starts with `-`, an exclude.
pub fn parse_query(query: &str) -> (r: Result<Query, QueryError>)
    ensures
        match parsed(query@) {
            Ok(q) => r is Ok && r->Ok_0@ == q,
            Err(e) => r == Err::<Query, QueryError>(e),
        },
{
    let tokens = match tokenize(query) {
        Ok(t) => t,
        Err(e) => return Err(e),
    };
    let ghost toks = strings_view(tokens@);
    let mut includes: Vec<Term> = Vec::new();
    let mut excludes: Vec<Term> = Vec::new();
    let mut j: usize = 0;
    assert(toks.subrange(0, 0) =~= Seq::<Seq<char>>::empty());
    assert(terms_view(includes@) =~= Seq::empty());
    assert(terms_view(excludes@) =~= Seq::empty());
    while j < tokens.len()
        invariant
            j <= tokens.len(),
            toks == strings_view(tokens@),
            (terms_view(includes@), terms_view(excludes@)) == query_of(toks.subrange(0, j as int)),
        decreases tokens.len() - j,
    {
        let tok = chars_of(tokens[j].as_str());
        assert(toks[j as int] == tok@);
        assert(toks.subrange(0, j + 1).drop_last() =~= toks.subrange(0, j as int));
        if tok.len() > 0 && tok[0] == '-' {
            let rest = skip_chars(&tok, 1);
            assert(rest@ =~= tok@.drop_first());
            let t = match term_of_chars(&rest) {
                Term::NormalFuzzy(text) => Term::Exact(text),
                other => other,
            };
            proof {
                lemma_terms_view_push(excludes@, t);
            }
            excludes.push(t);
        } else {
            let t = term_of_chars(&tok);
            proof {
                lemma_terms_view_push(includes@, t);
            }
            includes.push(t);
        }
        j = j + 1;
    }
    assert(toks.subrange(0, j as int) =~= toks);
    Ok(Query { includes, excludes })
}

/// Parsing never yields a fuzzy exclude.
pub proof fn lemma_excludes_never_fuzzy(toks: Seq<Seq<char>>)
    ensures
        forall|i: int| 0 <= i < query_of(toks).1.len() ==> (#[trigger] query_of(toks).1[i]).0 != TermKind::Fuzzy,
    decreases toks.len(),
{
    if toks.len() > 0 {
        lemma_excludes_never_fuzzy(toks.drop_last());
    }
}

/// A character with no meaning to the tokenizer.
pub open spec fn is_plain_char(c: char) -> bool {
    c != ' ' && c != '"' && c != '\\'
}

proof fn lemma_lex_plain(s: Seq<char>, n: int)
    requires
        0 <= n <= s.len(),
        forall|i: int| 0 <= i < s.len() ==> is_plain_char(#[trigger] s[i]),
    ensures
        lex_prefix(s, n) == (Seq::<Seq<char>>::empty(), s.take(n), false, LexMode::Plain),
    decreases n,
{
    if n > 0 {
        lemma_lex_plain(s, n - 1);
        assert(s.take(n - 1).push(s[n - 1]) =~= s.take(n));
    }
}

/// A negated plain word is an exact exclude: for a word `w` of characters
/// other than space, quote and backslash that no marker turns into a typed
/// term, the query `-w` parses to no includes and the one exclude
/// `Exact(w)`.
pub proof fn lemma_negated_word_is_exact(w: Seq<char>)
    requires
        forall|i: int| 0 <= i < w.len() ==> is_plain_char(#[trigger] w[i]),
        term_of(w).0 == TermKind::Fuzzy,
    ensures
        parsed(seq!['-'] + w) == Ok::<QueryView, QueryError>(
            (Seq::<TermView>::empty(), seq![(TermKind::Exact, w)]),
        ),
{
    let s = seq!['-'] + w;
    assert forall|i: int| 0 <= i < s.len() implies is_plain_char(#[trigger] s[i]) by {
        if i > 0 {
            assert(s[i] == w[i - 1]);
        }
    }
    lemma_lex_plain(s, s.len() as int);
    assert(s.take(s.len() as int) =~= s);
    let toks = seq![s];
    assert(Seq::<Seq<char>>::empty().push(s) =~= toks);
    assert(toks.drop_last() =~= Seq::<Seq<char>>::empty());
    assert(s.drop_first() =~= w);
    assert(term_of(w).1 == w) by {
        lemma_fuzzy_term_keeps_token(w, 0);
    }
    assert(s[0] == '-');
    assert(is_negated(s));
    assert(exclude_term_of(s) == (TermKind::Exact, w));
    assert(toks.last() == s);
    assert(query_of(toks.drop_last()) == (Seq::<TermView>::empty(), Seq::<TermView>::empty()));
    assert(query_of(toks).1 =~= seq![(TermKind::Exact, w)]);
    assert(query_of(toks).0 =~= Seq::<TermView>::empty());
    assert(tokens_of(s) == Ok::<Seq<Seq<char>>, QueryError>(toks));
}

proof fn lemma_fuzzy_term_keeps_token(tok: Seq<char>, i: int)
    requires
        recognize_from(tok, i).0 == TermKind::Fuzzy,
    ensures
        recognize_from(tok, i).1 == tok,
    decreases MARKER_COUNT - i,
{
    if 0 <= i < MARKER_COUNT && !marker_applies(tok, i) {
        lemma_fuzzy_term_keeps_token(tok, i + 1);
    }
}

} // verus!
