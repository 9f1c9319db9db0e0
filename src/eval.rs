//! Scoring, filtering and ranking of catalogue records against a query.

use fuzzy_matcher::FuzzyMatcher;
use vstd::prelude::*;

use crate::files::{FileView, Index, IndexedFile};
use crate::matching::{term_holds, term_verdict};
use crate::query::{Query, QueryView, Term, TermKind, TermView};

verus! {

/// The skim matcher's score for `pattern` against `choice`: none when the
/// pattern is not a subsequence of the choice.
pub uninterp spec fn skim_score(choice: Seq<char>, pattern: Seq<char>) -> Option<i64>;

/// Relies on `fuzzy_matcher::skim::SkimMatcherV2::fuzzy_match`, with smart
/// case: it scores an aligned subsequence match, and scores an empty pattern 0.
#[verifier::external_body]
fn skim_match(choice: &str, pattern: &str) -> (r: Option<i64>)
    ensures
        r == skim_score(choice@, pattern@),
        pattern@.len() == 0 ==> r == Some(0i64),
{
    fuzzy_matcher::skim::SkimMatcherV2::default().smart_case().use_cache(true).fuzzy_match(
        choice,
        pattern,
    )
}

/// What one matcher result adds to a score: a positive score as it is;
/// no match, or a score of zero or less, adds nothing.
pub open spec fn contribution(raw: Option<i64>) -> int {
    match raw {
        Some(s) => if s > 0 {
            s as int
        } else {
            0
        },
        None => 0,
    }
}

pub open spec fn sum_contributions(raw: Seq<Option<i64>>) -> int
    decreases raw.len(),
{
    if raw.len() == 0 {
        0
    } else {
        sum_contributions(raw.drop_last()) + contribution(raw.last())
    }
}

/// A non-negative total, held at `i64::MAX` when it does not fit.
pub open spec fn saturate(x: int) -> i64 {
    if x > i64::MAX {
        i64::MAX
    } else {
        x as i64
    }
}

proof fn lemma_sum_non_negative(raw: Seq<Option<i64>>)
    ensures
        sum_contributions(raw) >= 0,
    decreases raw.len(),
{
    if raw.len() > 0 {
        lemma_sum_non_negative(raw.drop_last());
    }
}

/// Combines the matcher's results for the fuzzy terms into one score.
pub fn total_score(raw: &Vec<Option<i64>>) -> (r: i64)
    ensures
        r == saturate(sum_contributions(raw@)),
        r >= 0,
{
    let mut acc: i64 = 0;
    let mut i: usize = 0;
    while i < raw.len()
        invariant
            i <= raw.len(),
            acc == saturate(sum_contributions(raw@.subrange(0, i as int))),
            acc >= 0,
        decreases raw.len() - i,
    {
        proof {
            assert(raw@.subrange(0, i + 1).drop_last() =~= raw@.subrange(0, i as int));
            lemma_sum_non_negative(raw@.subrange(0, i as int));
        }
        let c: i64 = match raw[i] {
            Some(s) => if s > 0 {
                s
            } else {
                0
            },
            None => 0,
        };
        if c > i64::MAX - acc {
            acc = i64::MAX;
        } else {
            acc = acc + c;
        }
        i = i + 1;
    }
    assert(raw@.subrange(0, i as int) =~= raw@);
    acc
}

/// The texts of the fuzzy terms among `terms`, in order.
pub open spec fn fuzzy_texts(terms: Seq<TermView>) -> Seq<Seq<char>>
    decreases terms.len(),
{
    if terms.len() == 0 {
        Seq::empty()
    } else if terms.last().0 == TermKind::Fuzzy {
        fuzzy_texts(terms.drop_last()).push(terms.last().1)
    } else {
        fuzzy_texts(terms.drop_last())
    }
}

/// The fuzzy score of a path: the sum over the fuzzy includes of what the
/// matcher gives each of them.
pub open spec fn fuzzy_total(q: QueryView, path: Seq<char>) -> i64 {
    saturate(sum_contributions(fuzzy_texts(q.0).map_values(|t: Seq<char>| skim_score(path, t))))
}

/// Scores `ixf` against the fuzzy includes of `query`.
pub fn fuzzy_score(query: &Query, ixf: IndexedFile) -> (r: (i64, IndexedFile))
    ensures
        r.0 == fuzzy_total(query@, ixf@.path),
        r.0 >= 0,
        r.1 == ixf,
{
    let ghost includes = query@.0;
    let mut raw: Vec<Option<i64>> = Vec::new();
    let mut i: usize = 0;
    assert(fuzzy_texts(includes.subrange(0, 0)) =~= Seq::<Seq<char>>::empty());
    while i < query.includes.len()
        invariant
            i <= query.includes.len(),
            includes == query@.0,
            raw@ == fuzzy_texts(includes.subrange(0, i as int)).map_values(
                |t: Seq<char>| skim_score(ixf@.path, t),
            ),
        decreases query.includes.len() - i,
    {
        let term = &query.includes[i];
        assert(includes[i as int] == term@);
        assert(includes.subrange(0, i + 1).drop_last() =~= includes.subrange(0, i as int));
        let ghost before = raw@;
        if let Term::NormalFuzzy(text) = term {
            raw.push(skim_match(ixf.path.as_str(), text.as_str()));
            assert(raw@ =~= fuzzy_texts(includes.subrange(0, i + 1)).map_values(
                |t: Seq<char>| skim_score(ixf@.path, t),
            ));
        }
        i = i + 1;
    }
    assert(includes.subrange(0, i as int) =~= includes);
    (total_score(&raw), ixf)
}

/// A record passes a query when every include can be evaluated for it and
/// holds, and every exclude can be evaluated for it and does not hold: a
/// term that cannot be evaluated rejects the record either way.
pub open spec fn accepts(q: QueryView, f: FileView) -> bool {
    &&& forall|i: int| 0 <= i < q.0.len() ==> term_verdict(#[trigger] q.0[i], f) == Some(true)
    &&& forall|i: int| 0 <= i < q.1.len() ==> term_verdict(#[trigger] q.1[i], f) == Some(false)
}

/// Scores `ixf` and keeps it only when it passes `query`.
pub fn eval_score(query: &Query, ixf: IndexedFile) -> (r: Option<(i64, IndexedFile)>)
    ensures
        match r {
            Some(p) => accepts(query@, ixf@) && p.0 == fuzzy_total(query@, ixf@.path) && p.1 == ixf,
            None => !accepts(query@, ixf@),
        },
{
    let (score, file) = fuzzy_score(query, ixf);
    let mut i: usize = 0;
    while i < query.includes.len()
        invariant
            i <= query.includes.len(),
            file == ixf,
            forall|k: int| 0 <= k < i ==> term_verdict(#[trigger] query@.0[k], file@) == Some(true),
        decreases query.includes.len() - i,
    {
        assert(query@.0[i as int] == query.includes@[i as int]@);
        match query.includes[i].verdict(&file) {
            Some(true) => {},
            _ => return None,
        }
        i = i + 1;
    }
    let mut j: usize = 0;
    while j < query.excludes.len()
        invariant
            j <= query.excludes.len(),
            file == ixf,
            forall|k: int| 0 <= k < query@.0.len() ==> term_verdict(#[trigger] query@.0[k], file@) == Some(true),
            forall|k: int| 0 <= k < j ==> term_verdict(#[trigger] query@.1[k], file@) == Some(false),
        decreases query.excludes.len() - j,
    {
        assert(query@.1[j as int] == query.excludes@[j as int]@);
        match query.excludes[j].verdict(&file) {
            Some(false) => {},
            _ => return None,
        }
        j = j + 1;
    }
    Some((score, file))
}

/// A result as a value: a score and a record.
pub type Hit = (i64, FileView);

pub open spec fn hits_view(v: Seq<(i64, IndexedFile)>) -> Seq<Hit> {
    v.map_values(|p: (i64, IndexedFile)| (p.0, p.1@))
}

/// The scored records of `files` that pass `q`, in catalogue order.
pub open spec fn hits(q: QueryView, files: Seq<FileView>) -> Seq<Hit>
    decreases files.len(),
{
    if files.len() == 0 {
        Seq::empty()
    } else {
        let h = hits(q, files.drop_last());
        let f = files.last();
        if accepts(q, f) {
            h.push((fuzzy_total(q, f.path), f))
        } else {
            h
        }
    }
}

/// The position of the first result in `s` that scores below `key`.
pub open spec fn first_below(s: Seq<Hit>, key: i64) -> int
    decreases s.len(),
{
    if s.len() == 0 {
        0
    } else if s[0].0 < key {
        0
    } else {
        1 + first_below(s.drop_first(), key)
    }
}

/// Places `h` after every result that scores at least as much.
pub open spec fn insert_ranked(s: Seq<Hit>, h: Hit) -> Seq<Hit> {
    s.insert(first_below(s, h.0), h)
}

/// Results ordered best first; equal scores keep their order in `s`.
pub open spec fn ranked(s: Seq<Hit>) -> Seq<Hit>
    decreases s.len(),
{
    if s.len() == 0 {
        Seq::empty()
    } else {
        insert_ranked(ranked(s.drop_last()), s.last())
    }
}

proof fn lemma_first_below(s: Seq<Hit>, key: i64)
    ensures
        0 <= first_below(s, key) <= s.len(),
        forall|k: int| 0 <= k < first_below(s, key) ==> s[k].0 >= key,
        first_below(s, key) < s.len() ==> s[first_below(s, key)].0 < key,
    decreases s.len(),
{
    if s.len() > 0 && s[0].0 >= key {
        lemma_first_below(s.drop_first(), key);
        assert forall|k: int| 0 <= k < first_below(s, key) implies s[k].0 >= key by {
            if k > 0 {
                assert(s[k] == s.drop_first()[k - 1]);
            }
        }
    }
}

proof fn lemma_first_below_at(s: Seq<Hit>, key: i64, j: int)
    requires
        0 <= j <= s.len(),
        forall|k: int| 0 <= k < j ==> s[k].0 >= key,
        j < s.len() ==> s[j].0 < key,
    ensures
        first_below(s, key) == j,
    decreases s.len(),
{
    if s.len() > 0 && j > 0 {
        let t = s.drop_first();
        assert forall|k: int| 0 <= k < j - 1 implies t[k].0 >= key by {
            assert(t[k] == s[k + 1]);
        }
        lemma_first_below_at(t, key, j - 1);
    }
}

pub open spec fn sorted_best_first(s: Seq<Hit>) -> bool {
    forall|i: int, j: int| 0 <= i < j < s.len() ==> #[trigger] s[i].0 >= #[trigger] s[j].0
}

/// The ranked results are ordered best first and are exactly the results
/// given, each as often.
pub proof fn lemma_ranked(s: Seq<Hit>)
    ensures
        sorted_best_first(ranked(s)),
        ranked(s).to_multiset() == s.to_multiset(),
        ranked(s).len() == s.len(),
    decreases s.len(),
{
    broadcast use vstd::seq_lib::to_multiset_insert, vstd::seq_lib::to_multiset_build, vstd::seq_lib::to_multiset_len;

    if s.len() == 0 {
        assert(s =~= ranked(s));
    } else {
        let init = s.drop_last();
        let h = s.last();
        lemma_ranked(init);
        let r0 = ranked(init);
        let p = first_below(r0, h.0);
        lemma_first_below(r0, h.0);
        let r = r0.insert(p, h);
        assert(s == init.push(h));
        assert forall|i: int, j: int| 0 <= i < j < r.len() implies #[trigger] r[i].0 >= #[trigger] r[j].0 by {
            if j < p {
                assert(r[i] == r0[i] && r[j] == r0[j]);
            } else if j == p {
                assert(r[i] == r0[i]);
            } else if i < p {
                assert(r[i] == r0[i] && r[j] == r0[j - 1]);
            } else if i == p {
                assert(r[j] == r0[j - 1]);
                assert(r0[p].0 >= r0[j - 1].0 || j - 1 == p);
            } else {
                assert(r[i] == r0[i - 1] && r[j] == r0[j - 1]);
            }
        }
    }
}

/// Scores and filters every record of `index`, in catalogue order.
fn collect_hits(query: &Query, index: &Index) -> (r: Vec<(i64, IndexedFile)>)
    ensures
        hits_view(r@) == hits(query@, index@),
{
    let files = index.files();
    let ghost fv = index@;
    let mut r: Vec<(i64, IndexedFile)> = Vec::new();
    let mut i: usize = 0;
    assert(hits_view(r@) =~= hits(query@, fv.subrange(0, 0)));
    while i < files.len()
        invariant
            i <= files.len(),
            crate::files::files_view(files@) == fv,
            hits_view(r@) == hits(query@, fv.subrange(0, i as int)),
        decreases files.len() - i,
    {
        assert(fv.subrange(0, i + 1).drop_last() =~= fv.subrange(0, i as int));
        assert(fv[i as int] == files@[i as int]@);
        let f = files[i].duplicate();
        match eval_score(query, f) {
            Some(p) => {
                r.push(p);
                assert(hits_view(r@) =~= hits(query@, fv.subrange(0, i + 1)));
            },
            None => {},
        }
        i = i + 1;
    }
    assert(fv.subrange(0, i as int) =~= fv);
    r
}

/// Orders results best first, keeping equal scores in their given order.
fn rank(v: Vec<(i64, IndexedFile)>) -> (r: Vec<(i64, IndexedFile)>)
    ensures
        hits_view(r@) == ranked(hits_view(v@)),
{
    let ghost all = hits_view(v@);
    let mut rest = v;
    let mut r: Vec<(i64, IndexedFile)> = Vec::new();
    let ghost taken: int = 0;
    assert(all.subrange(0, 0) =~= Seq::<Hit>::empty());
    assert(hits_view(r@) =~= Seq::<Hit>::empty());
    while rest.len() > 0
        invariant
            0 <= taken <= all.len(),
            hits_view(rest@) == all.subrange(taken, all.len() as int),
            hits_view(r@) == ranked(all.subrange(0, taken)),
        decreases rest.len(),
    {
        assert(hits_view(rest@).len() == rest@.len());
        assert(hits_view(rest@)[0] == (rest@[0].0, rest@[0].1@));
        let ghost first = hits_view(rest@)[0];
        let ghost before_rest = hits_view(rest@);
        assert(all[taken] == first);
        let h = rest.remove(0);
        let ghost hv = (h.0, h.1@);
        assert(hv == first);
        let ghost cur = hits_view(r@);
        let mut j: usize = 0;
        while j < r.len() && r[j].0 >= h.0
            invariant
                j <= r.len(),
                cur == hits_view(r@),
                forall|k: int| 0 <= k < j ==> cur[k].0 >= h.0,
            decreases r.len() - j,
        {
            j = j + 1;
        }
        proof {
            lemma_first_below_at(cur, h.0, j as int);
            assert(all.subrange(0, taken + 1).drop_last() =~= all.subrange(0, taken));
            assert(all.subrange(0, taken + 1).last() == hv);
        }
        r.insert(j, h);
        assert(hits_view(r@) =~= cur.insert(j as int, hv));
        assert(hits_view(rest@) =~= before_rest.drop_first());
        assert(before_rest.drop_first() =~= all.subrange(taken + 1, all.len() as int));
        proof {
            taken = taken + 1;
        }
    }
    assert(all.subrange(0, taken) =~= all);
    r
}

/// The results of a shorter catalogue are a prefix of the results of a
/// longer one.
proof fn lemma_hits_prefix(q: QueryView, files: Seq<FileView>, n: int)
    requires
        0 <= n <= files.len(),
    ensures
        hits(q, files.take(n)).len() <= hits(q, files).len(),
        hits(q, files).take(hits(q, files.take(n)).len() as int) == hits(q, files.take(n)),
    decreases files.len(),
{
    if n == files.len() {
        assert(files.take(n) =~= files);
        assert(hits(q, files).take(hits(q, files).len() as int) =~= hits(q, files));
    } else {
        let init = files.drop_last();
        assert(files.take(n) =~= init.take(n));
        lemma_hits_prefix(q, init, n);
        let k = hits(q, files.take(n)).len() as int;
        assert(hits(q, files).take(k) =~= hits(q, init).take(k));
    }
}

/// Records of a catalogue that pass a query, produced one at a time in
/// catalogue order.
pub struct QueryStream {
    query: Query,
    index: Index,
    pos: usize,
}

impl QueryStream {
    #[verifier::type_invariant]
    spec fn inv(&self) -> bool {
        self.pos <= self.index@.len()
    }

    /// Every result the stream produces, in order.
    pub closed spec fn all(&self) -> Seq<Hit> {
        hits(self.query@, self.index@)
    }

    /// How many results it has produced so far.
    pub closed spec fn produced(&self) -> int {
        hits(self.query@, self.index@.take(self.pos as int)).len() as int
    }

    /// Produces the next result: the next record in catalogue order that
    /// passes the query, with its score; none once all are produced.
    pub fn next(&mut self) -> (r: Option<(i64, IndexedFile)>)
        ensures
            final(self).all() == old(self).all(),
            match r {
                Some(p) => old(self).produced() < old(self).all().len() && (p.0, p.1@) == old(self).all()[old(self).produced()]
                    && final(self).produced() == old(self).produced() + 1,
                None => old(self).produced() == old(self).all().len() && final(self).produced() == old(self).produced(),
            },
    {
        proof {
            use_type_invariant(&*self);
        }
        let ghost q = self.query@;
        let ghost fv = self.index@;
        let ghost start = hits(q, fv.take(self.pos as int)).len();
        let files = self.index.files();
        let mut pos = self.pos;
        while pos < files.len()
            invariant
                self.pos <= pos <= files.len(),
                crate::files::files_view(files@) == fv,
                fv == self.index@,
                q == self.query@,
                old(self).query@ == q,
                old(self).index@ == fv,
                start == hits(q, fv.take(old(self).pos as int)).len(),
                hits(q, fv.take(pos as int)).len() == start,
            decreases files.len() - pos,
        {
            assert(fv.take(pos + 1).drop_last() =~= fv.take(pos as int));
            assert(fv.take(pos + 1).last() == fv[pos as int]);
            assert(fv[pos as int] == files@[pos as int]@);
            let f = files[pos].duplicate();
            pos = pos + 1;
            match eval_score(&self.query, f) {
                Some(p) => {
                    proof {
                        let prev = fv.take(pos - 1);
                        let cur = fv.take(pos as int);
                        assert(cur.drop_last() =~= prev);
                        assert(hits(q, cur) == hits(q, prev).push((p.0, p.1@)));
                        lemma_hits_prefix(q, fv, pos as int);
                        let k = hits(q, cur).len() as int;
                        assert(k == start + 1);
                        assert(hits(q, fv).take(k)[k - 1] == hits(q, fv)[k - 1]);
                        assert(hits(q, fv)[start as int] == (p.0, p.1@));
                    }
                    self.pos = pos;
                    return Some(p);
                },
                None => {},
            }
        }
        assert(fv.take(pos as int) =~= fv);
        self.pos = pos;
        None
    }
}

/// The lazy evaluation order: a stream of every record of `index` that
/// passes `query`, with its score, in catalogue order and unsorted.
pub fn query_stream(query: Query, index: Index) -> (r: QueryStream)
    ensures
        r.all() == hits(query@, index@),
        r.produced() == 0,
{
    let r = QueryStream { query, index, pos: 0 };
    assert(r.index@.take(0) =~= Seq::<FileView>::empty());
    r
}

/// Runs `query` over the whole catalogue: the records that pass, with their
/// scores, best first; records with equal scores keep catalogue order.
pub fn query(q: &Query, index: &Index) -> (r: Vec<(i64, IndexedFile)>)
    ensures
        hits_view(r@) == ranked(hits(q@, index@)),
{
    rank(collect_hits(q, index))
}

/// Every result of `hits` is a record of `files` that passes `q`, and every
/// record of `files` that passes `q` is among the results.
pub proof fn lemma_hits_members(q: QueryView, files: Seq<FileView>)
    ensures
        forall|k: int| 0 <= k < hits(q, files).len() ==> accepts(q, #[trigger] hits(q, files)[k].1) && files.contains(hits(q, files)[k].1),
        forall|i: int| 0 <= i < files.len() && accepts(q, #[trigger] files[i]) ==> exists|k: int| 0 <= k < hits(q, files).len() && hits(q, files)[k].1 == files[i],
    decreases files.len(),
{
    if files.len() > 0 {
        let init = files.drop_last();
        lemma_hits_members(q, init);
        let h = hits(q, files);
        let h0 = hits(q, init);
        assert forall|k: int| 0 <= k < h.len() implies accepts(q, #[trigger] h[k].1) && files.contains(h[k].1) by {
            if k < h0.len() {
                assert(h[k] == h0[k]);
                let w = choose|j: int| 0 <= j < init.len() && init[j] == h0[k].1;
                assert(files[w] == init[w]);
            } else {
                assert(files[files.len() - 1] == files.last());
            }
        }
        assert forall|i: int| 0 <= i < files.len() && accepts(q, #[trigger] files[i]) implies exists|k: int| 0 <= k < h.len() && h[k].1 == files[i] by {
            if i < init.len() {
                assert(init[i] == files[i]);
                let k = choose|k: int| 0 <= k < h0.len() && h0[k].1 == init[i];
                assert(h[k] == h0[k]);
            } else {
                assert(h[h0.len() as int].1 == files[i]);
            }
        }
    }
}

/// Includes are all required: a record that fails any one include, or for
/// which one cannot be evaluated, is in no result, whatever its fuzzy score.
pub proof fn lemma_failed_include_rejects(q: QueryView, files: Seq<FileView>, f: FileView, i: int)
    requires
        0 <= i < q.0.len(),
        !term_holds(q.0[i], f),
    ensures
        !accepts(q, f),
        forall|k: int| 0 <= k < hits(q, files).len() ==> #[trigger] hits(q, files)[k].1 != f,
        forall|k: int| 0 <= k < ranked(hits(q, files)).len() ==> #[trigger] ranked(hits(q, files))[k].1 != f,
{
    lemma_rejected_absent(q, files, f);
}

/// Excludes act as alternatives: a record that matches any one exclude, or
/// for which any one exclude cannot be evaluated, is in no result, even when
/// it matches none of the others.
pub proof fn lemma_matched_exclude_rejects(q: QueryView, files: Seq<FileView>, f: FileView, i: int)
    requires
        0 <= i < q.1.len(),
        term_verdict(q.1[i], f) != Some(false),
    ensures
        !accepts(q, f),
        forall|k: int| 0 <= k < hits(q, files).len() ==> #[trigger] hits(q, files)[k].1 != f,
        forall|k: int| 0 <= k < ranked(hits(q, files)).len() ==> #[trigger] ranked(hits(q, files))[k].1 != f,
{
    lemma_rejected_absent(q, files, f);
}

proof fn lemma_rejected_absent(q: QueryView, files: Seq<FileView>, f: FileView)
    requires
        !accepts(q, f),
    ensures
        forall|k: int| 0 <= k < hits(q, files).len() ==> #[trigger] hits(q, files)[k].1 != f,
        forall|k: int| 0 <= k < ranked(hits(q, files)).len() ==> #[trigger] ranked(hits(q, files))[k].1 != f,
{
    broadcast use vstd::seq_lib::to_multiset_contains;

    lemma_hits_members(q, files);
    lemma_ranked(hits(q, files));
    let h = hits(q, files);
    let r = ranked(h);
    assert forall|k: int| 0 <= k < r.len() implies #[trigger] r[k].1 != f by {
        assert(r.contains(r[k]));
        assert(r.to_multiset().count(r[k]) > 0);
        assert(h.to_multiset().count(r[k]) > 0);
        assert(h.contains(r[k]));
    }
}

/// A query of fuzzy includes alone keeps every record, each with a score of
/// at least zero: the lazy results in catalogue order, and the ranked
/// results in some order.
pub proof fn lemma_fuzzy_only_ranks_all(q: QueryView, files: Seq<FileView>)
    requires
        q.1.len() == 0,
        forall|i: int| 0 <= i < q.0.len() ==> (#[trigger] q.0[i]).0 == TermKind::Fuzzy,
    ensures
        ranked(hits(q, files)).len() == files.len(),
        forall|i: int|
            #![trigger files[i]]
            0 <= i < files.len() ==> exists|k: int|
                #![trigger ranked(hits(q, files))[k]]
                0 <= k < files.len() && ranked(hits(q, files))[k].1 == files[i],
        forall|k: int| 0 <= k < files.len() ==> (#[trigger] ranked(hits(q, files))[k]).0 >= 0,
{
    broadcast use vstd::seq_lib::to_multiset_contains;

    lemma_fuzzy_only_keeps_all(q, files);
    let h = hits(q, files);
    lemma_ranked(h);
    let r = ranked(h);
    assert forall|i: int|
        #![trigger files[i]]
        0 <= i < files.len() implies exists|k: int|
            #![trigger r[k]]
            0 <= k < files.len() && r[k].1 == files[i] by {
        assert(h.contains(h[i]));
        assert(h.to_multiset().count(h[i]) > 0);
        assert(r.to_multiset().count(h[i]) > 0);
        assert(r.contains(h[i]));
        let k = choose|k: int| 0 <= k < r.len() && r[k] == h[i];
        assert(r[k].1 == files[i]);
    }
    assert forall|k: int| 0 <= k < files.len() implies (#[trigger] r[k]).0 >= 0 by {
        assert(r.contains(r[k]));
        assert(r.to_multiset().count(r[k]) > 0);
        assert(h.to_multiset().count(r[k]) > 0);
        assert(h.contains(r[k]));
        let j = choose|j: int| 0 <= j < h.len() && h[j] == r[k];
        assert(h[j].0 >= 0);
    }
}

/// With fuzzy includes alone, the lazy results are every record in
/// catalogue order, each with a score of at least zero.
pub proof fn lemma_fuzzy_only_keeps_all(q: QueryView, files: Seq<FileView>)
    requires
        q.1.len() == 0,
        forall|i: int| 0 <= i < q.0.len() ==> (#[trigger] q.0[i]).0 == TermKind::Fuzzy,
    ensures
        hits(q, files).len() == files.len(),
        forall|i: int| 0 <= i < files.len() ==> (#[trigger] hits(q, files)[i]).1 == files[i] && hits(q, files)[i].0 >= 0,
    decreases files.len(),
{
    if files.len() > 0 {
        lemma_fuzzy_only_keeps_all(q, files.drop_last());
        let f = files.last();
        assert(accepts(q, f));
        let s = sum_contributions(fuzzy_texts(q.0).map_values(|t: Seq<char>| skim_score(f.path, t)));
        lemma_sum_non_negative(fuzzy_texts(q.0).map_values(|t: Seq<char>| skim_score(f.path, t)));
        let h = hits(q, files);
        assert forall|i: int| 0 <= i < files.len() implies (#[trigger] h[i]).1 == files[i] && h[i].0 >= 0 by {
            if i < files.len() - 1 {
                assert(h[i] == hits(q, files.drop_last())[i]);
            }
        }
    }
}


/// Every record of `files` with its fuzzy score, unfiltered.
pub open spec fn all_scored(q: QueryView, files: Seq<FileView>) -> Seq<Hit> {
    files.map_values(|f: FileView| (fuzzy_total(q, f.path), f))
}

/// `q` has a fuzzy include whose text does not also stand as a fuzzy
/// exclude.
pub open spec fn has_live_fuzzy(q: QueryView) -> bool {
    exists|i: int| 0 <= i < q.0.len() && (#[trigger] q.0[i]).0 == TermKind::Fuzzy && !q.1.contains((TermKind::Fuzzy, q.0[i].1))
}

/// Every record of `files` with score 0, in catalogue order.
pub open spec fn unscored(files: Seq<FileView>) -> Seq<Hit> {
    files.map_values(|f: FileView| (0i64, f))
}

fn is_fuzzy_exclude(query: &Query, text: &String) -> (r: bool)
    ensures
        r == query@.1.contains((TermKind::Fuzzy, text@)),
{
    let mut j: usize = 0;
    while j < query.excludes.len()
        invariant
            j <= query.excludes.len(),
            forall|k: int| 0 <= k < j ==> query@.1[k] != (TermKind::Fuzzy, text@),
        decreases query.excludes.len() - j,
    {
        assert(query@.1[j as int] == query.excludes@[j as int]@);
        if let Term::NormalFuzzy(t) = &query.excludes[j] {
            if *t == *text {
                return true;
            }
        }
        j = j + 1;
    }
    false
}

fn live_fuzzy(query: &Query) -> (r: bool)
    ensures
        r == has_live_fuzzy(query@),
{
    let mut i: usize = 0;
    while i < query.includes.len()
        invariant
            i <= query.includes.len(),
            forall|k: int| 0 <= k < i && (#[trigger] query@.0[k]).0 == TermKind::Fuzzy ==> query@.1.contains((TermKind::Fuzzy, query@.0[k].1)),
        decreases query.includes.len() - i,
    {
        assert(query@.0[i as int] == query.includes@[i as int]@);
        if let Term::NormalFuzzy(t) = &query.includes[i] {
            if !is_fuzzy_exclude(query, t) {
                return true;
            }
        }
        i = i + 1;
    }
    false
}

/// Scores every record against the fuzzy includes alone, best first and
/// unfiltered. When no fuzzy include is left once those that also stand as
/// fuzzy excludes are set aside, every record comes back with score 0, in
/// catalogue order.
pub fn fuzzy_match(query: &Query, idx: &Index) -> (r: Vec<(i64, IndexedFile)>)
    ensures
        hits_view(r@) == if has_live_fuzzy(query@) {
            ranked(all_scored(query@, idx@))
        } else {
            unscored(idx@)
        },
{
    let files = idx.files();
    let ghost fv = idx@;
    if !live_fuzzy(query) {
        let mut all: Vec<(i64, IndexedFile)> = Vec::new();
        let mut i: usize = 0;
        while i < files.len()
            invariant
                i <= files.len(),
                crate::files::files_view(files@) == fv,
                hits_view(all@) == unscored(fv.subrange(0, i as int)),
            decreases files.len() - i,
        {
            assert(fv[i as int] == files@[i as int]@);
            let f = files[i].duplicate();
            let ghost old_a = hits_view(all@);
            let ghost fw = f@;
            all.push((0, f));
            assert(hits_view(all@) =~= old_a.push((0i64, fw)));
            assert(hits_view(all@) =~= unscored(fv.subrange(0, i + 1)));
            i = i + 1;
        }
        assert(fv.subrange(0, i as int) =~= fv);
        return all;
    }
    let mut scored: Vec<(i64, IndexedFile)> = Vec::new();
    let mut i: usize = 0;
    while i < files.len()
        invariant
            i <= files.len(),
            crate::files::files_view(files@) == fv,
            hits_view(scored@) == all_scored(query@, fv.subrange(0, i as int)),
        decreases files.len() - i,
    {
        assert(fv[i as int] == files@[i as int]@);
        let p = fuzzy_score(query, files[i].duplicate());
        let ghost hv = (p.0, p.1@);
        let ghost old_s = hits_view(scored@);
        scored.push(p);
        assert(hits_view(scored@) =~= old_s.push(hv));
        assert(hits_view(scored@) =~= all_scored(query@, fv.subrange(0, i + 1)));
        i = i + 1;
    }
    assert(fv.subrange(0, i as int) =~= fv);
    rank(scored)
}

} // verus!
