//! The indexing pipeline's decisions. Walker workers report one outcome per
//! visited entry; entries that could not be read or turned into a record
//! are skipped, and records are handed to a single consumer that upserts
//! them into the catalogue one at a time.

use vstd::prelude::*;

use crate::eval::{hits, hits_view, query, ranked};
use crate::files::{holds_path, upsert, FileView, Index, IndexedFile};
use crate::query::Query;

verus! {

/// What the walk produced for one visited entry.
#[derive(Debug)]
pub enum EntryOutcome {
    /// The walk could not read the entry.
    Unreadable,
    /// The entry was read, but no record could be built for it.
    Unbuildable,
    /// The record built for the entry.
    Built(IndexedFile),
}

/// An outcome as a value.
pub enum OutcomeView {
    Unreadable,
    Unbuildable,
    Built(FileView),
}

impl View for EntryOutcome {
    type V = OutcomeView;

    open spec fn view(&self) -> OutcomeView {
        match self {
            EntryOutcome::Unreadable => OutcomeView::Unreadable,
            EntryOutcome::Unbuildable => OutcomeView::Unbuildable,
            EntryOutcome::Built(f) => OutcomeView::Built(f@),
        }
    }
}

/// A walker's decision for one entry: a record goes to the hand-off queue;
/// a failed entry is skipped and the walk goes on.
pub fn hand_off(outcome: EntryOutcome) -> (r: Option<IndexedFile>)
    ensures
        match outcome {
            EntryOutcome::Built(f) => r == Some(f),
            _ => r is None,
        },
{
    match outcome {
        EntryOutcome::Built(f) => Some(f),
        _ => None,
    }
}

/// The catalogue after the consumer takes one outcome.
pub open spec fn absorb(files: Seq<FileView>, o: OutcomeView) -> Seq<FileView> {
    match o {
        OutcomeView::Built(f) => upsert(files, f),
        _ => files,
    }
}

/// The catalogue after the consumer takes a sequence of outcomes in order.
pub open spec fn absorb_all(files: Seq<FileView>, os: Seq<OutcomeView>) -> Seq<FileView>
    decreases os.len(),
{
    if os.len() == 0 {
        files
    } else {
        absorb(absorb_all(files, os.drop_last()), os.last())
    }
}

pub open spec fn outcomes_view(os: Seq<EntryOutcome>) -> Seq<OutcomeView> {
    os.map_values(|o: EntryOutcome| o@)
}

/// Why a backend refused a record or a query.
#[derive(Debug, Clone)]
pub struct BackendError {
    pub message: String,
}

/// A store of file records: in memory (`Index`) or external.
pub trait IndexBackend {
    /// The records the backend holds, in its order.
    spec fn stored(&self) -> Seq<FileView>;

    /// Inserts a record or replaces the one stored for its path, and hands
    /// back what was stored. On failure nothing is promised of the store.
    fn push_file(&mut self, entry: IndexedFile) -> (r: Result<IndexedFile, BackendError>)
        ensures
            r is Ok ==> final(self).stored() == upsert(old(self).stored(), entry@) && r->Ok_0@
                == entry@,
    ;

    /// Runs a query over every stored record.
    fn run_query(&self, q: &Query) -> (r: Vec<(i64, IndexedFile)>)
        ensures
            hits_view(r@) == ranked(hits(q@, self.stored())),
    ;
}

impl IndexBackend for Index {
    open spec fn stored(&self) -> Seq<FileView> {
        self@
    }

    fn push_file(&mut self, entry: IndexedFile) -> (r: Result<IndexedFile, BackendError>)
        ensures
            r is Ok,
    {
        let stored = entry.duplicate();
        self.add_file(entry);
        Ok(stored)
    }

    fn run_query(&self, q: &Query) -> (r: Vec<(i64, IndexedFile)>) {
        query(q, self)
    }
}

/// The single consumer: it owns the backend and stores each record it is
/// handed, one at a time.
pub struct Indexer<B: IndexBackend> {
    backend: B,
}

impl<B: IndexBackend> Indexer<B> {
    pub closed spec fn stored(&self) -> Seq<FileView> {
        self.backend.stored()
    }

    /// A consumer that fills `backend`.
    pub fn new(backend: B) -> (r: Indexer<B>)
        ensures
            r.stored() == backend.stored(),
    {
        Indexer { backend }
    }

    /// Takes one outcome of the walk: a record is stored, a failed entry
    /// changes nothing. A backend failure is handed back.
    pub fn accept(&mut self, outcome: EntryOutcome) -> (r: Result<(), BackendError>)
        ensures
            r is Ok ==> final(self).stored() == absorb(old(self).stored(), outcome@),
            !(outcome@ is Built) ==> r is Ok && final(self).stored() == old(self).stored(),
    {
        match hand_off(outcome) {
            Some(f) => match self.backend.push_file(f) {
                Ok(_) => Ok(()),
                Err(e) => Err(e),
            },
            None => Ok(()),
        }
    }

    /// Takes every outcome, in order, and stops at the first backend failure.
    pub fn index_all(&mut self, outcomes: Vec<EntryOutcome>) -> (r: Result<(), BackendError>)
        ensures
            r is Ok ==> final(self).stored() == absorb_all(old(self).stored(), outcomes_view(outcomes@)),
            (forall|i: int| 0 <= i < outcomes@.len() ==> !(#[trigger] outcomes@[i]@ is Built)) ==> r is Ok
                && final(self).stored() == old(self).stored(),
            r is Err ==> exists|i: int| 0 <= i < outcomes@.len() && #[trigger] outcomes@[i]@ is Built,
    {
        let ghost start = self.stored();
        let ghost all = outcomes_view(outcomes@);
        let mut rest = outcomes;
        let ghost taken: int = 0;
        assert(all.subrange(0, 0) =~= Seq::<OutcomeView>::empty());
        while rest.len() > 0
            invariant
                0 <= taken <= all.len(),
                outcomes_view(rest@) == all.subrange(taken, all.len() as int),
                self.stored() == absorb_all(start, all.subrange(0, taken)),
                all == outcomes_view(outcomes@),
                (forall|k: int| 0 <= k < taken ==> !(#[trigger] all[k] is Built)) ==> self.stored() == start,
            decreases rest.len(),
        {
            assert(outcomes_view(rest@).len() == rest@.len());
            let ghost before_rest = outcomes_view(rest@);
            assert(before_rest[0] == all[taken]);
            let o = rest.remove(0);
            assert(o@ == all[taken]);
            assert(all.subrange(0, taken + 1).drop_last() =~= all.subrange(0, taken));
            match self.accept(o) {
                Ok(()) => {},
                Err(e) => {
                    assert(outcomes@[taken]@ is Built);
                    return Err(e);
                },
            }
            assert(outcomes_view(rest@) =~= before_rest.drop_first());
            assert(before_rest.drop_first() =~= all.subrange(taken + 1, all.len() as int));
            proof {
                taken = taken + 1;
            }
        }
        assert(all.subrange(0, taken) =~= all);
        assert forall|k: int| 0 <= k < outcomes@.len() implies all[k] == #[trigger] outcomes@[k]@ by {}
        Ok(())
    }

    /// Runs a query against the backend.
    pub fn run_query(&self, q: &Query) -> (r: Vec<(i64, IndexedFile)>)
        ensures
            hits_view(r@) == ranked(hits(q@, self.stored())),
    {
        self.backend.run_query(q)
    }

    pub fn backend(&self) -> (r: &B)
        ensures
            r.stored() == self.stored(),
    {
        &self.backend
    }

    pub fn into_backend(self) -> (r: B)
        ensures
            r.stored() == self.stored(),
    {
        self.backend
    }
}

proof fn lemma_upsert_holds(files: Seq<FileView>, f: FileView, p: Seq<char>)
    ensures
        holds_path(upsert(files, f), f.path),
        holds_path(files, p) ==> holds_path(upsert(files, f), p),
{
    let r = upsert(files, f);
    if holds_path(files, f.path) {
        crate::files::lemma_first_with_path(files, f.path);
        let c = choose|i: int| crate::files::first_with_path(files, f.path, i);
        assert(r[c].path == f.path);
        if holds_path(files, p) {
            let w = choose|i: int| 0 <= i < files.len() && #[trigger] files[i].path == p;
            if w != c {
                assert(r[w] == files[w]);
            }
        }
    } else {
        assert(r[files.len() as int] == f);
        if holds_path(files, p) {
            let w = choose|i: int| 0 <= i < files.len() && #[trigger] files[i].path == p;
            assert(r[w] == files[w]);
        }
    }
}

/// Faults during the walk are isolated: whatever entries could not be read
/// or built, the catalogue holds a record for the path of every entry that
/// was built, and the failed entries change nothing.
pub proof fn lemma_faults_are_skipped(start: Seq<FileView>, os: Seq<OutcomeView>)
    ensures
        forall|i: int| 0 <= i < os.len() ==> match #[trigger] os[i] {
            OutcomeView::Built(f) => holds_path(absorb_all(start, os), f.path),
            _ => true,
        },
        forall|p: Seq<char>| holds_path(start, p) ==> holds_path(absorb_all(start, os), p),
    decreases os.len(),
{
    if os.len() > 0 {
        let init = os.drop_last();
        lemma_faults_are_skipped(start, init);
        let before = absorb_all(start, init);
        assert forall|p: Seq<char>| holds_path(before, p) implies holds_path(absorb_all(start, os), p) by {
            match os.last() {
                OutcomeView::Built(f) => lemma_upsert_holds(before, f, p),
                _ => {},
            }
        }
        assert forall|i: int| 0 <= i < os.len() implies match #[trigger] os[i] {
            OutcomeView::Built(f) => holds_path(absorb_all(start, os), f.path),
            _ => true,
        } by {
            if i < init.len() {
                assert(os[i] == init[i]);
            } else {
                match os.last() {
                    OutcomeView::Built(f) => lemma_upsert_holds(before, f, f.path),
                    _ => {},
                }
            }
        }
    }
}

} // verus!
