//! Tags: a file's tag set is stored as one comma-separated string.

use vstd::prelude::*;

use crate::query::strings_view;
use crate::text::{chars_of, string_of};

verus! {

/// Unicode White_Space, the property `char::is_whitespace` tests.
pub open spec fn is_white_space(c: char) -> bool {
    let u = c as u32;
    (0x9 <= u && u <= 0xD) || u == 0x20 || u == 0x85 || u == 0xA0 || u == 0x1680 || (0x2000 <= u
        && u <= 0x200A) || u == 0x2028 || u == 0x2029 || u == 0x202F || u == 0x205F || u == 0x3000
}

pub open spec fn trim_start(s: Seq<char>) -> Seq<char>
    decreases s.len(),
{
    if s.len() > 0 && is_white_space(s[0]) {
        trim_start(s.drop_first())
    } else {
        s
    }
}

pub open spec fn trim_end(s: Seq<char>) -> Seq<char>
    decreases s.len(),
{
    if s.len() > 0 && is_white_space(s.last()) {
        trim_end(s.drop_last())
    } else {
        s
    }
}

/// `s` without its leading and trailing whitespace.
pub open spec fn trimmed(s: Seq<char>) -> Seq<char> {
    trim_end(trim_start(s))
}

/// Relies on std's `str::trim`: drops the leading and trailing characters
/// that have the Unicode White_Space property.
#[verifier::external_body]
fn trim(s: &str) -> (r: String)
    ensures
        r@ == trimmed(s@),
{
    s.trim().to_string()
}

/// The pieces of `s` between commas, as `str::split(',')` cuts them: one
/// more piece than there are commas.
pub open spec fn comma_pieces(s: Seq<char>) -> Seq<Seq<char>>
    decreases s.len(),
{
    if s.len() == 0 {
        seq![Seq::empty()]
    } else {
        let p = comma_pieces(s.drop_last());
        if s.last() == ',' {
            p.push(Seq::empty())
        } else {
            p.update(p.len() - 1, p.last().push(s.last()))
        }
    }
}

proof fn lemma_comma_pieces_non_empty(s: Seq<char>)
    ensures
        comma_pieces(s).len() >= 1,
    decreases s.len(),
{
    if s.len() > 0 {
        lemma_comma_pieces_non_empty(s.drop_last());
    }
}

/// The tags of a stored tag string: none for the empty string, and
/// otherwise each comma-separated piece, trimmed.
pub open spec fn tags_of(s: Seq<char>) -> Seq<Seq<char>> {
    if s.len() == 0 {
        Seq::empty()
    } else {
        comma_pieces(s).map_values(|p: Seq<char>| trimmed(p))
    }
}

/// Parses a stored tag string.
pub fn parse_tags(tags: &str) -> (r: Vec<String>)
    ensures
        strings_view(r@) == tags_of(tags@),
{
    let s = chars_of(tags);
    let mut r: Vec<String> = Vec::new();
    if s.len() == 0 {
        assert(strings_view(r@) =~= tags_of(tags@));
        return r;
    }
    let mut current: Vec<char> = Vec::new();
    let mut i: usize = 0;
    assert(s@.subrange(0, 0) =~= Seq::<char>::empty());
    while i < s.len()
        invariant
            i <= s.len(),
            s@ == tags@,
            strings_view(r@) == comma_pieces(s@.subrange(0, i as int)).drop_last().map_values(
                |p: Seq<char>| trimmed(p),
            ),
            current@ == comma_pieces(s@.subrange(0, i as int)).last(),
        decreases s.len() - i,
    {
        let ghost prefix = s@.subrange(0, i as int);
        let ghost next = s@.subrange(0, i + 1);
        proof {
            assert(next.drop_last() =~= prefix);
            lemma_comma_pieces_non_empty(prefix);
        }
        if s[i] == ',' {
            let t = trim(string_of(&current).as_str());
            let ghost old_view = strings_view(r@);
            let ghost cp = comma_pieces(prefix);
            r.push(t);
            assert(strings_view(r@) =~= old_view.push(t@));
            assert(cp =~= cp.drop_last().push(cp.last()));
            assert(cp.map_values(|p: Seq<char>| trimmed(p)) =~= cp.drop_last().map_values(
                |p: Seq<char>| trimmed(p),
            ).push(trimmed(cp.last())));
            current = Vec::new();
            assert(comma_pieces(next) == comma_pieces(prefix).push(Seq::empty()));
            assert(comma_pieces(next).drop_last() =~= comma_pieces(prefix));
            assert(strings_view(r@) =~= comma_pieces(next).drop_last().map_values(
                |p: Seq<char>| trimmed(p),
            ));
        } else {
            current.push(s[i]);
            assert(comma_pieces(next).drop_last() =~= comma_pieces(prefix).drop_last());
        }
        i = i + 1;
    }
    assert(s@.subrange(0, i as int) =~= s@);
    let t = trim(string_of(&current).as_str());
    let ghost old_view = strings_view(r@);
    r.push(t);
    proof {
        assert(strings_view(r@) =~= old_view.push(t@));
        lemma_comma_pieces_non_empty(s@);
        let p = comma_pieces(s@);
        assert(p =~= p.drop_last().push(p.last()));
        assert(p.map_values(|q: Seq<char>| trimmed(q)) =~= p.drop_last().map_values(
            |q: Seq<char>| trimmed(q),
        ).push(trimmed(p.last())));
    }
    assert(strings_view(r@) =~= tags_of(tags@));
    r
}

} // verus!
