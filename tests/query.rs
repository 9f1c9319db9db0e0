use datchani::query::{parse_query, parse_term, tokenize, Query, QueryError, Term};

#[test]
fn test_query() {
    let query = "prefix:foo suffix:bar baz -qux -\"aaa bbb\" -extension:md #owo -#uwu";

    let query = parse_query(query).unwrap();

    println!("{:#?}", query);
    assert_eq!(
        query,
        Query {
            includes: vec![
                Term::Prefix(String::from("foo")),
                Term::Suffix(String::from("bar")),
                Term::NormalFuzzy(String::from("baz")),
                Term::Tag(String::from("owo")),
            ],
            excludes: vec![
                Term::Exact(String::from("qux")),
                Term::Exact(String::from("aaa bbb")),
                Term::Extension(String::from("md")),
                Term::Tag(String::from("uwu")),
            ],
        }
    );
}

#[test]
fn negated_plain_word_is_exact() {
    for w in ["qux", "hello", "a", "--x", "ext", "tag"] {
        let q = parse_query(&format!("-{}", w)).unwrap();
        assert!(q.includes.is_empty());
        assert_eq!(q.excludes, vec![Term::Exact(String::from(w))]);
    }
}

#[test]
fn negated_typed_term_keeps_its_kind() {
    let q = parse_query("-ext:rs -prefix:a").unwrap();
    assert_eq!(
        q.excludes,
        vec![Term::Extension(String::from("rs")), Term::Prefix(String::from("a"))]
    );
}

#[test]
fn every_marker_is_recognised() {
    let cases = [
        ("regex:a.b", Term::Regex(String::from("a.b"))),
        ("re:x", Term::Regex(String::from("x"))),
        ("r:x", Term::Regex(String::from("x"))),
        ("regexp:x", Term::Regex(String::from("x"))),
        ("rgx:x", Term::Regex(String::from("x"))),
        ("prefix:x", Term::Prefix(String::from("x"))),
        ("pre:x", Term::Prefix(String::from("x"))),
        ("start:x", Term::Prefix(String::from("x"))),
        ("starts_with:x", Term::Prefix(String::from("x"))),
        ("pfx:x", Term::Prefix(String::from("x"))),
        ("extension:x", Term::Extension(String::from("x"))),
        ("ext:x", Term::Extension(String::from("x"))),
        ("file:x", Term::Extension(String::from("x"))),
        ("suffix_name:x", Term::SuffixName(String::from("x"))),
        ("suffix:x", Term::Suffix(String::from("x"))),
        ("suf:x", Term::Suffix(String::from("x"))),
        ("end:x", Term::Suffix(String::from("x"))),
        ("ends_with:x", Term::Suffix(String::from("x"))),
        ("sfx:x", Term::Suffix(String::from("x"))),
        ("before:2020-01-01", Term::Before(String::from("2020-01-01"))),
        ("after:2020-01-01", Term::After(String::from("2020-01-01"))),
        ("mime:text/plain", Term::Mime(String::from("text/plain"))),
        ("#x", Term::Tag(String::from("x"))),
        ("tag:x", Term::Tag(String::from("x"))),
        ("tags:x", Term::Tag(String::from("x"))),
        ("tagged:x", Term::Tag(String::from("x"))),
        ("@x", Term::Exact(String::from("x"))),
        ("exact:x", Term::Exact(String::from("x"))),
        ("plain", Term::NormalFuzzy(String::from("plain"))),
    ];
    for (token, term) in cases {
        assert_eq!(parse_term(token), term, "token {}", token);
    }
}

#[test]
fn marker_without_payload_is_fuzzy() {
    assert_eq!(parse_term("prefix:"), Term::NormalFuzzy(String::from("prefix:")));
    assert_eq!(parse_term("#"), Term::NormalFuzzy(String::from("#")));
    assert_eq!(parse_term("ext:"), Term::NormalFuzzy(String::from("ext:")));
}

#[test]
fn tokenizer_spaces_quotes_and_escapes() {
    assert_eq!(tokenize("a  b").unwrap(), vec!["a", "", "b"]);
    assert_eq!(tokenize("a b ").unwrap(), vec!["a", "b"]);
    assert_eq!(tokenize("a\\ b c").unwrap(), vec!["a b", "c"]);
    assert_eq!(tokenize("\"x y\"z").unwrap(), vec!["x yz"]);
    assert_eq!(tokenize("a \"\"").unwrap(), vec!["a", ""]);
    assert_eq!(tokenize("\\\\\\\"").unwrap(), vec!["\\\""]);
    assert_eq!(tokenize("").unwrap(), Vec::<String>::new());
}

#[test]
fn tokenizer_errors() {
    assert_eq!(tokenize("abc\\"), Err(QueryError::DanglingEscape));
    assert_eq!(tokenize("a \"bc"), Err(QueryError::UnterminatedQuote));
    assert_eq!(parse_query("x \"open"), Err(QueryError::UnterminatedQuote));
    assert_eq!(parse_query("x\\"), Err(QueryError::DanglingEscape));
}
