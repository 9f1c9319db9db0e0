use datchani::eval::{eval_score, fuzzy_match, fuzzy_score, query, query_stream, total_score};
use datchani::files::{FileKind, Index, IndexedFile, Timestamp};
use datchani::query::{parse_query, Query, Term};

fn file(path: &str) -> IndexedFile {
    file_with(path, None, &[])
}

fn file_with(path: &str, mime: Option<&str>, tags: &[&str]) -> IndexedFile {
    IndexedFile::from_parts(
        path.to_string(),
        FileKind::Regular,
        mime.map(|m| m.to_string()),
        tags.iter().map(|t| t.to_string()).collect(),
        Timestamp { secs: 0, nanos: 0 },
        Timestamp { secs: 0, nanos: 0 },
    )
}

fn catalogue(paths: &[&str]) -> Index {
    let mut idx = Index::new();
    for p in paths {
        idx.add_file(file(p));
    }
    idx
}

fn paths(results: &[(i64, IndexedFile)]) -> Vec<String> {
    results.iter().map(|(_, f)| f.path.clone()).collect()
}

fn holds(term: Term, path: &str) -> bool {
    term.match_rules(&file(path))
}

#[test]
fn end_to_end_extension_queries() {
    let idx = catalogue(&["foo.rs", "bar.rlib", "baz.txt"]);
    let r = query(&parse_query("extension:rlib").unwrap(), &idx);
    assert_eq!(paths(&r), vec!["bar.rlib"]);
    let r = query(&parse_query("-extension:txt").unwrap(), &idx);
    let mut got = paths(&r);
    got.sort();
    assert_eq!(got, vec!["bar.rlib", "foo.rs"]);
}

#[test]
fn includes_are_all_required() {
    let idx = catalogue(&["abc.txt", "abc.rs", "zzz.rs"]);
    let q = Query {
        includes: vec![
            Term::Prefix("a".to_string()),
            Term::Extension("rs".to_string()),
            Term::NormalFuzzy("abc".to_string()),
        ],
        excludes: vec![],
    };
    assert_eq!(paths(&query(&q, &idx)), vec!["abc.rs"]);
}

#[test]
fn any_exclude_rejects() {
    let idx = catalogue(&["a.md", "b.txt", "c.rs"]);
    let q = Query {
        includes: vec![],
        excludes: vec![Term::Extension("md".to_string()), Term::Prefix("b".to_string())],
    };
    assert_eq!(paths(&query(&q, &idx)), vec!["c.rs"]);
}

#[test]
fn fuzzy_only_query_keeps_every_record() {
    let idx = catalogue(&["src/main.rs", "README.md", "zzz"]);
    let r = query(&parse_query("main").unwrap(), &idx);
    assert_eq!(r.len(), 3);
    assert!(r.iter().all(|(s, _)| *s >= 0));
    let mut got = paths(&r);
    got.sort();
    assert_eq!(got, vec!["README.md", "src/main.rs", "zzz"]);
}

#[test]
fn results_are_best_first() {
    let idx = catalogue(&["zzz", "x/m/a/i/n", "main.rs"]);
    let r = query(&parse_query("main").unwrap(), &idx);
    assert_eq!(r.len(), 3);
    for w in r.windows(2) {
        assert!(w[0].0 >= w[1].0);
    }
    assert_eq!(r[0].1.path, "main.rs");
    assert!(r[0].0 > 0);
    assert_eq!(r[2].1.path, "zzz");
    assert_eq!(r[2].0, 0);
}

#[test]
fn equal_scores_keep_catalogue_order() {
    let idx = catalogue(&["c.rs", "a.rs", "b.rs"]);
    let r = query(&parse_query("ext:rs").unwrap(), &idx);
    assert_eq!(paths(&r), vec!["c.rs", "a.rs", "b.rs"]);
}

#[test]
fn extension_is_case_sensitive() {
    assert!(!holds(Term::Extension("rs".to_string()), "a.RS"));
    assert!(holds(Term::Extension("RS".to_string()), "a.RS"));
    assert!(holds(Term::Extension("gz".to_string()), "dir/a.tar.gz"));
    assert!(!holds(Term::Extension("rs".to_string()), "dir/rs"));
    assert!(!holds(Term::Extension("bashrc".to_string()), ".bashrc"));
}

#[test]
fn name_predicates() {
    assert!(holds(Term::Prefix("ma".to_string()), "src/main.rs"));
    assert!(!holds(Term::Prefix("src".to_string()), "src/main.rs"));
    assert!(holds(Term::Suffix("n.rs".to_string()), "src/main.rs"));
    assert!(holds(Term::Exact("ain".to_string()), "src/main.rs"));
    assert!(!holds(Term::Exact("src".to_string()), "src/main.rs"));
    assert!(holds(Term::SuffixName("bar".to_string()), "d/foo_bar.tar.gz"));
    assert!(!holds(Term::SuffixName("tar".to_string()), "d/foo_bar.tar.gz"));
    assert!(!holds(Term::SuffixName("gz".to_string()), "d/foo_bar.tar.gz"));
    assert!(holds(Term::NormalFuzzy("anything".to_string()), "x"));
    assert!(!holds(Term::Prefix("".to_string()), "/"));
}

#[test]
fn regex_predicate_fails_closed() {
    assert!(holds(Term::Regex("^ma.n\\.rs$".to_string()), "src/main.rs"));
    assert!(!holds(Term::Regex("^src".to_string()), "src/main.rs"));
    assert!(!holds(Term::Regex("(".to_string()), "src/main.rs"));
}

#[test]
fn mime_and_tag_predicates() {
    let f = file_with("a.png", Some("image/png"), &["work", "fun"]);
    assert!(Term::Mime("image/png".to_string()).match_rules(&f));
    assert!(!Term::Mime("image/PNG".to_string()).match_rules(&f));
    assert!(!Term::Mime("x".to_string()).match_rules(&file_with("a", None, &[])));
    assert!(Term::Tag("fun".to_string()).match_rules(&f));
    assert!(!Term::Tag("fu".to_string()).match_rules(&f));
}

fn modified_at(secs: i64) -> IndexedFile {
    IndexedFile::from_parts(
        "a".to_string(),
        FileKind::Regular,
        None,
        vec![],
        Timestamp { secs, nanos: 0 },
        Timestamp { secs: 0, nanos: 0 },
    )
}

#[test]
fn date_terms_compare_whole_utc_days() {
    // 2020-01-02T00:00:00Z is 1577923200.
    let day = 1577923200;
    let before = Term::Before("2020-01-02".to_string());
    assert!(before.match_rules(&modified_at(day - 1)));
    assert!(!before.match_rules(&modified_at(day)));
    let after = Term::After("2020-01-02".to_string());
    assert!(!after.match_rules(&modified_at(day)));
    assert!(!after.match_rules(&modified_at(day + 86399)));
    assert!(after.match_rules(&modified_at(day + 86400)));
}

#[test]
fn unreadable_dates_match_nothing() {
    assert!(!Term::Before("soon".to_string()).match_rules(&modified_at(0)));
    assert!(!Term::After("2020-13-01".to_string()).match_rules(&modified_at(i64::MAX)));
}

#[test]
fn score_totals() {
    assert_eq!(total_score(&vec![Some(5), None, Some(-3), Some(7)]), 12);
    assert_eq!(total_score(&vec![]), 0);
    assert_eq!(total_score(&vec![Some(i64::MAX), Some(1)]), i64::MAX);
}

#[test]
fn fuzzy_scores_use_the_matcher() {
    let q = parse_query("main").unwrap();
    let (s, f) = fuzzy_score(&q, file("src/main.rs"));
    assert!(s > 0);
    assert_eq!(f.path, "src/main.rs");
    let (s, _) = fuzzy_score(&q, file("zzz"));
    assert_eq!(s, 0);
    let (s, _) = fuzzy_score(&parse_query("ext:rs").unwrap(), file("src/main.rs"));
    assert_eq!(s, 0);
}

#[test]
fn eval_score_filters() {
    let q = parse_query("ext:rs main").unwrap();
    assert!(eval_score(&q, file("src/main.rs")).is_some());
    assert!(eval_score(&q, file("src/main.md")).is_none());
}

#[test]
fn lazy_results_keep_catalogue_order() {
    let idx = catalogue(&["zzz.rs", "main.rs", "b.md"]);
    let mut stream = query_stream(parse_query("main -ext:md").unwrap(), idx);
    let first = stream.next().unwrap();
    assert_eq!(first.1.path, "zzz.rs");
    assert_eq!(first.0, 0);
    let second = stream.next().unwrap();
    assert_eq!(second.1.path, "main.rs");
    assert!(second.0 > 0);
    assert!(stream.next().is_none());
    assert!(stream.next().is_none());
}

#[test]
fn excludes_that_cannot_be_evaluated_reject() {
    let idx = catalogue(&["a.rs", "b.md"]);
    assert!(query(&parse_query("-regex:(").unwrap(), &idx).is_empty());
    assert!(query(&parse_query("-before:soon").unwrap(), &idx).is_empty());
    assert!(query(&parse_query("regex:(").unwrap(), &idx).is_empty());
    assert!(eval_score(&parse_query("-regex:(").unwrap(), file("a.rs")).is_none());
    assert!(eval_score(&parse_query("-prefix:x").unwrap(), file("/")).is_none());
    assert!(eval_score(&parse_query("-regex:^z").unwrap(), file("a.rs")).is_some());
}

#[test]
fn verdicts_say_when_a_term_cannot_be_evaluated() {
    assert_eq!(Term::Regex("(".to_string()).verdict(&file("a")), None);
    assert_eq!(Term::Prefix("a".to_string()).verdict(&file("..")), None);
    assert_eq!(Term::Extension("rs".to_string()).verdict(&file("a/")), Some(false));
    assert_eq!(Term::Extension("rs".to_string()).verdict(&file("/")), None);
    assert_eq!(Term::Mime("x".to_string()).verdict(&file("a")), Some(false));
    assert_eq!(Term::Before("2020-01-01".to_string()).verdict(&file("a")), Some(true));
}

#[test]
fn fuzzy_match_scores_without_filtering() {
    let idx = catalogue(&["zzz", "main.rs"]);
    let r = fuzzy_match(&parse_query("main ext:md").unwrap(), &idx);
    assert_eq!(paths(&r), vec!["main.rs", "zzz"]);
    let r = fuzzy_match(&parse_query("ext:md").unwrap(), &idx);
    assert_eq!(paths(&r), vec!["zzz", "main.rs"]);
    assert!(r.iter().all(|(s, _)| *s == 0));
}

#[test]
fn fuzzy_match_sets_aside_fuzzy_terms_also_excluded() {
    let idx = catalogue(&["zzz", "main.rs"]);
    let q = Query {
        includes: vec![Term::NormalFuzzy("main".to_string())],
        excludes: vec![Term::NormalFuzzy("main".to_string())],
    };
    let r = fuzzy_match(&q, &idx);
    assert_eq!(paths(&r), vec!["zzz", "main.rs"]);
    assert!(r.iter().all(|(s, _)| *s == 0));
}
