//! What each query term asks of a file record.

use vstd::prelude::*;

use crate::files::{FileView, IndexedFile};
use crate::paths::{extension_of, file_name_of, path_extension, path_file_name, path_file_stem, stem_of};
use crate::query::{Term, TermKind, TermView};
use crate::text::{before_first_dot, before_first_dot_exec, chars_of, contains, ends_with, has_infix, has_prefix, has_suffix, starts_with};

verus! {

/// Whether `text` matches `pattern` as a regular expression; none when the
/// pattern does not compile.
pub uninterp spec fn regex_verdict(pattern: Seq<char>, text: Seq<char>) -> Option<bool>;

/// Relies on `regex::Regex::new` and `regex::Regex::is_match`: compiles the
/// pattern, then reports whether it matches anywhere in `text`.
#[verifier::external_body]
fn regex_is_match(pattern: &str, text: &str) -> (r: Option<bool>)
    ensures
        r == regex_verdict(pattern@, text@),
{
    match regex::Regex::new(pattern) {
        Ok(re) => Some(re.is_match(text)),
        Err(_) => None,
    }
}

/// The Unix time, in seconds, at which the calendar day that `text` writes
/// in `format` begins in UTC; none when `text` is no such date.
pub uninterp spec fn day_start(text: Seq<char>, format: Seq<char>) -> Option<i64>;

/// Relies on `chrono::NaiveDate::parse_from_str` to read the date, then on
/// `NaiveDate::and_hms_opt(0, 0, 0)` and `DateTime::timestamp` for the
/// start of that day in UTC.
#[verifier::external_body]
fn parse_day_start(text: &str, format: &str) -> (r: Option<i64>)
    ensures
        r == day_start(text@, format@),
{
    match chrono::NaiveDate::parse_from_str(text, format) {
        Ok(d) => match d.and_hms_opt(0, 0, 0) {
            Some(t) => Some(t.and_utc().timestamp()),
            None => None,
        },
        Err(_) => None,
    }
}

pub const SECONDS_PER_DAY: i64 = 86400;

/// `Before(d)`: the record was last modified before day `d`, written
/// `YYYY-MM-DD`, began (UTC). None when the date cannot be read.
pub open spec fn modified_before(text: Seq<char>, f: FileView) -> Option<bool> {
    match day_start(text, "%Y-%m-%d"@) {
        Some(start) => Some(f.last_modified.secs < start),
        None => None,
    }
}

/// `After(d)`: the record was last modified once day `d`, written
/// `YYYY-MM-DD`, had ended (UTC). None when the date cannot be read.
pub open spec fn modified_after(text: Seq<char>, f: FileView) -> Option<bool> {
    match day_start(text, "%Y-%m-%d"@) {
        Some(start) => Some(f.last_modified.secs >= start + SECONDS_PER_DAY),
        None => None,
    }
}

/// Applies a predicate on the file name; none when the path has no name.
pub open spec fn on_name(path: Seq<char>, p: spec_fn(Seq<char>) -> bool) -> Option<bool> {
    match file_name_of(path) {
        Some(n) => Some(p(n)),
        None => None,
    }
}

/// What term `t` says of record `f`: `Some(true)` or `Some(false)`, or none
/// when the term cannot be evaluated for it: a predicate on the file name
/// when the path has none, a regular expression that does not compile, or a
/// date that cannot be read.
pub open spec fn term_verdict(t: TermView, f: FileView) -> Option<bool> {
    match t.0 {
        TermKind::Fuzzy => Some(true),
        TermKind::Regex => match file_name_of(f.path) {
            Some(n) => regex_verdict(t.1, n),
            None => None,
        },
        TermKind::Exact => on_name(f.path, |n: Seq<char>| has_infix(n, t.1)),
        TermKind::Prefix => on_name(f.path, |n: Seq<char>| has_prefix(n, t.1)),
        TermKind::Suffix => on_name(f.path, |n: Seq<char>| has_suffix(n, t.1)),
        TermKind::SuffixName => match stem_of(f.path) {
            Some(s) => Some(has_suffix(before_first_dot(s), t.1)),
            None => None,
        },
        TermKind::Extension => on_name(f.path, |n: Seq<char>| extension_of(f.path) == Some(t.1)),
        TermKind::Mime => Some(f.data_type == Some(t.1)),
        TermKind::Tag => Some(f.tags.contains(t.1)),
        TermKind::Before => modified_before(t.1, f),
        TermKind::After => modified_after(t.1, f),
    }
}

/// Term `t` can be evaluated for `f` and holds.
pub open spec fn term_holds(t: TermView, f: FileView) -> bool {
    term_verdict(t, f) == Some(true)
}

fn has_tag(tags: &Vec<String>, tag: &String) -> (r: bool)
    ensures
        r == crate::query::strings_view(tags@).contains(tag@),
{
    let ghost v = crate::query::strings_view(tags@);
    let mut i: usize = 0;
    while i < tags.len()
        invariant
            i <= tags.len(),
            v == crate::query::strings_view(tags@),
            forall|k: int| 0 <= k < i ==> v[k] != tag@,
        decreases tags.len() - i,
    {
        if tags[i] == *tag {
            assert(v[i as int] == tag@);
            return true;
        }
        i = i + 1;
    }
    false
}

impl Term {
    /// What this term says of `file`; none when it cannot be evaluated.
    pub fn verdict(&self, file: &IndexedFile) -> (r: Option<bool>)
        ensures
            r == term_verdict(self@, file@),
    {
        let text = self.text();
        match self.kind() {
            TermKind::Fuzzy => Some(true),
            TermKind::Regex => match path_file_name(file.path.as_str()) {
                Some(n) => regex_is_match(text.as_str(), n.as_str()),
                None => None,
            },
            TermKind::Exact => match path_file_name(file.path.as_str()) {
                Some(n) => Some(contains(&chars_of(n.as_str()), &chars_of(text.as_str()))),
                None => None,
            },
            TermKind::Prefix => match path_file_name(file.path.as_str()) {
                Some(n) => Some(starts_with(&chars_of(n.as_str()), &chars_of(text.as_str()))),
                None => None,
            },
            TermKind::Suffix => match path_file_name(file.path.as_str()) {
                Some(n) => Some(ends_with(&chars_of(n.as_str()), &chars_of(text.as_str()))),
                None => None,
            },
            TermKind::SuffixName => match path_file_stem(file.path.as_str()) {
                Some(s) => Some(ends_with(&before_first_dot_exec(&chars_of(s.as_str())), &chars_of(text.as_str()))),
                None => None,
            },
            TermKind::Extension => match path_file_name(file.path.as_str()) {
                Some(_) => match path_extension(file.path.as_str()) {
                    Some(e) => Some(e == *text),
                    None => Some(false),
                },
                None => None,
            },
            TermKind::Mime => match &file.data_type {
                Some(d) => Some(*d == *text),
                None => Some(false),
            },
            TermKind::Tag => Some(has_tag(&file.tags, text)),
            TermKind::Before => match parse_day_start(text.as_str(), "%Y-%m-%d") {
                Some(start) => Some(file.last_modified.secs < start),
                None => None,
            },
            TermKind::After => match parse_day_start(text.as_str(), "%Y-%m-%d") {
                Some(start) => Some((file.last_modified.secs as i128) >= (start as i128) + (SECONDS_PER_DAY as i128)),
                None => None,
            },
        }
    }

    /// Whether this term can be evaluated for `file` and holds of it.
    pub fn match_rules(&self, file: &IndexedFile) -> (r: bool)
        ensures
            r == term_holds(self@, file@),
    {
        match self.verdict(file) {
            Some(b) => b,
            None => false,
        }
    }
}

/// Extensions compare exactly, case included: a name whose extension is
/// `RS` does not match the term `Extension("rs")`.
pub proof fn lemma_extension_is_case_sensitive(f: FileView)
    requires
        extension_of(f.path) == Some(seq!['R', 'S']),
    ensures
        !term_holds((TermKind::Extension, seq!['r', 's']), f),
{
    assert(seq!['R', 'S'][0] != seq!['r', 's'][0]);
}

} // verus!
