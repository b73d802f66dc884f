//! The ledger: reviews stored by id, with a secondary index from
//! (repository, pull request) and (repository, commit) to the most recently
//! saved review.
//!
//! Saving is an upsert keyed by the review's id: saving an id again replaces
//! the stored review and its index entry, never adds a second one. "Most
//! recent" is the last write: the index keeps entries in the order they were
//! last saved and lookups take the last match.
use vstd::prelude::*;

use crate::models::{
    HumanDecision, Review, ReviewStatus, ReviewView, Severity, SuggestionItem, SuggestionType,
    undecided,
};
use crate::rules::{kind_name, severity_name};

verus! {

/// What the index holds about one review.
#[derive(Debug, Clone)]
pub struct ReviewIndexEntry {
    pub id: u128,
    pub repo: String,
    pub pr_number: Option<u64>,
    pub commit_sha: String,
    pub status: ReviewStatus,
}

/// Secondary lookup keys, in the order their reviews were last saved.
#[derive(Debug, Clone)]
pub struct ReviewIndex {
    pub reviews: Vec<ReviewIndexEntry>,
}

/// The index entry for a review.
pub open spec fn entry_of(r: ReviewView) -> (ReviewIndexEntryView) {
    ReviewIndexEntryView {
        id: r.id,
        repo: r.repo,
        pr_number: r.pr_number,
        commit_sha: r.commit_sha,
        status: r.status,
    }
}

/// An index entry as a mathematical value.
pub struct ReviewIndexEntryView {
    pub id: u128,
    pub repo: Seq<char>,
    pub pr_number: Option<u64>,
    pub commit_sha: Seq<char>,
    pub status: ReviewStatus,
}

impl View for ReviewIndexEntry {
    type V = ReviewIndexEntryView;

    open spec fn view(&self) -> ReviewIndexEntryView {
        ReviewIndexEntryView {
            id: self.id,
            repo: self.repo@,
            pr_number: self.pr_number,
            commit_sha: self.commit_sha@,
            status: self.status,
        }
    }
}

impl View for ReviewIndex {
    type V = Seq<ReviewIndexEntryView>;

    open spec fn view(&self) -> Seq<ReviewIndexEntryView> {
        Seq::new(self.reviews@.len(), |i: int| self.reviews@[i]@)
    }
}

/// The entries whose id is not `id`, in order.
pub open spec fn without_id(es: Seq<ReviewIndexEntryView>, id: u128) -> Seq<ReviewIndexEntryView>
    decreases es.len(),
{
    if es.len() == 0 {
        seq![]
    } else if es.last().id == id {
        without_id(es.drop_last(), id)
    } else {
        without_id(es.drop_last(), id).push(es.last())
    }
}

/// The index after saving `r`: its old entry removed, a new one appended.
pub open spec fn recorded(es: Seq<ReviewIndexEntryView>, r: ReviewView) -> Seq<ReviewIndexEntryView> {
    without_id(es, r.id).push(entry_of(r))
}

/// Id of the last entry for pull request `pr` of `repo`.
pub open spec fn last_by_pr(es: Seq<ReviewIndexEntryView>, repo: Seq<char>, pr: u64) -> Option<u128>
    decreases es.len(),
{
    if es.len() == 0 {
        None
    } else if es.last().repo == repo && es.last().pr_number == Some(pr) {
        Some(es.last().id)
    } else {
        last_by_pr(es.drop_last(), repo, pr)
    }
}

/// Id of the last entry for commit `sha` of `repo`.
pub open spec fn last_by_commit(es: Seq<ReviewIndexEntryView>, repo: Seq<char>, sha: Seq<char>) -> Option<u128>
    decreases es.len(),
{
    if es.len() == 0 {
        None
    } else if es.last().repo == repo && es.last().commit_sha == sha {
        Some(es.last().id)
    } else {
        last_by_commit(es.drop_last(), repo, sha)
    }
}

impl ReviewIndex {
    pub fn new() -> (r: ReviewIndex)
        ensures
            r@.len() == 0,
    {
        ReviewIndex { reviews: Vec::new() }
    }

    /// Replaces the entry of `review`: any entry with its id is removed and a
    /// new one appended.
    pub fn record(&mut self, review: &Review)
        ensures
            final(self)@ == recorded(old(self)@, review@),
    {
        let mut kept: Vec<ReviewIndexEntry> = Vec::new();
        let mut i: usize = 0;
        while i < self.reviews.len()
            invariant
                i <= self.reviews@.len(),
                Seq::new(kept@.len(), |k: int| kept@[k]@) == without_id(
                    old(self)@.subrange(0, i as int),
                    review.id,
                ),
                self.reviews@ == old(self).reviews@,
            decreases self.reviews.len() - i,
        {
            assert(old(self)@.subrange(0, i + 1).drop_last() =~= old(self)@.subrange(0, i as int));
            assert(old(self)@.subrange(0, i + 1).last() == self.reviews@[i as int]@);
            if self.reviews[i].id != review.id {
                let e = &self.reviews[i];
                let ghost prev = Seq::new(kept@.len(), |k: int| kept@[k]@);
                kept.push(
                    ReviewIndexEntry {
                        id: e.id,
                        repo: e.repo.clone(),
                        pr_number: e.pr_number,
                        commit_sha: e.commit_sha.clone(),
                        status: e.status,
                    },
                );
                assert(Seq::new(kept@.len(), |k: int| kept@[k]@) =~= prev.push(self.reviews@[i as int]@));
            }
            i = i + 1;
        }
        assert(old(self)@.subrange(0, i as int) =~= old(self)@);
        let ghost prev = Seq::new(kept@.len(), |k: int| kept@[k]@);
        kept.push(
            ReviewIndexEntry {
                id: review.id,
                repo: review.repo.clone(),
                pr_number: review.pr_number,
                commit_sha: review.commit_sha.clone(),
                status: review.status,
            },
        );
        assert(Seq::new(kept@.len(), |k: int| kept@[k]@) =~= prev.push(entry_of(review@)));
        self.reviews = kept;
    }

    /// Id of the most recently saved review for pull request `pr` of `repo`.
    pub fn find_by_pr(&self, repo: &str, pr: u64) -> (r: Option<u128>)
        ensures
            r == last_by_pr(self@, repo@, pr),
    {
        let target = repo.to_owned();
        let mut i: usize = self.reviews.len();
        assert(self@.subrange(0, i as int) =~= self@);
        while i > 0
            invariant
                i <= self.reviews@.len(),
                target@ == repo@,
                last_by_pr(self@, repo@, pr) == last_by_pr(self@.subrange(0, i as int), repo@, pr),
            decreases i,
        {
            let ghost pre = self@.subrange(0, i as int);
            assert(pre.drop_last() =~= self@.subrange(0, i - 1));
            assert(pre.last() == self.reviews@[i - 1]@);
            let e = &self.reviews[i - 1];
            if e.repo == target && e.pr_number == Some(pr) {
                return Some(e.id);
            }
            i = i - 1;
        }
        None
    }

    /// Id of the most recently saved review for commit `sha` of `repo`.
    pub fn find_by_commit(&self, repo: &str, sha: &str) -> (r: Option<u128>)
        ensures
            r == last_by_commit(self@, repo@, sha@),
    {
        let target = repo.to_owned();
        let commit = sha.to_owned();
        let mut i: usize = self.reviews.len();
        assert(self@.subrange(0, i as int) =~= self@);
        while i > 0
            invariant
                i <= self.reviews@.len(),
                target@ == repo@,
                commit@ == sha@,
                last_by_commit(self@, repo@, sha@) == last_by_commit(
                    self@.subrange(0, i as int),
                    repo@,
                    sha@,
                ),
            decreases i,
        {
            let ghost pre = self@.subrange(0, i as int);
            assert(pre.drop_last() =~= self@.subrange(0, i - 1));
            assert(pre.last() == self.reviews@[i - 1]@);
            let e = &self.reviews[i - 1];
            if e.repo == target && e.commit_sha == commit {
                return Some(e.id);
            }
            i = i - 1;
        }
        None
    }
}

/// The document-store ledger: reviews stored one per id, and the index.
/// Reading and writing its files is left to the caller.
pub struct JsonLedger {
    pub reviews: Vec<Review>,
    pub index: ReviewIndex,
}

/// Position of the stored review with id `id`.
pub open spec fn doc_index(docs: Seq<ReviewView>, id: u128) -> Option<int>
    decreases docs.len(),
{
    if docs.len() == 0 {
        None
    } else {
        match doc_index(docs.drop_last(), id) {
            Some(i) => Some(i),
            None => if docs.last().id == id {
                Some(docs.len() - 1)
            } else {
                None
            },
        }
    }
}

/// The stored review with id `id`.
pub open spec fn lookup(docs: Seq<ReviewView>, id: u128) -> Option<ReviewView> {
    match doc_index(docs, id) {
        Some(i) => Some(docs[i]),
        None => None,
    }
}

/// The documents after saving `r`: replaced in place if its id is stored,
/// else appended.
pub open spec fn saved(docs: Seq<ReviewView>, r: ReviewView) -> Seq<ReviewView> {
    match doc_index(docs, r.id) {
        Some(i) => docs.update(i, r),
        None => docs.push(r),
    }
}

/// The stored reviews that index entries satisfying `keep` point to, in index order.
pub open spec fn listed(
    es: Seq<ReviewIndexEntryView>,
    docs: Seq<ReviewView>,
    keep: spec_fn(ReviewIndexEntryView) -> bool,
) -> Seq<ReviewView>
    decreases es.len(),
{
    if es.len() == 0 {
        seq![]
    } else {
        let prev = listed(es.drop_last(), docs, keep);
        if keep(es.last()) {
            match lookup(docs, es.last().id) {
                Some(v) => prev.push(v),
                None => prev,
            }
        } else {
            prev
        }
    }
}

proof fn lemma_doc_index_bound(docs: Seq<ReviewView>, id: u128)
    ensures
        match doc_index(docs, id) {
            Some(i) => 0 <= i < docs.len() && docs[i].id == id,
            None => forall|k: int| 0 <= k < docs.len() ==> docs[k].id != id,
        },
    decreases docs.len(),
{
    if docs.len() > 0 {
        lemma_doc_index_bound(docs.drop_last(), id);
        match doc_index(docs.drop_last(), id) {
            Some(i) => {},
            None => {
                assert forall|k: int| 0 <= k < docs.len() - 1 implies docs[k].id != id by {
                    assert(docs.drop_last()[k] == docs[k]);
                }
            },
        }
    }
}

proof fn lemma_doc_index_prefix(docs: Seq<ReviewView>, id: u128, n: int)
    requires
        0 <= n <= docs.len(),
        doc_index(docs.subrange(0, n), id) is Some,
    ensures
        doc_index(docs, id) == doc_index(docs.subrange(0, n), id),
    decreases docs.len() - n,
{
    if n < docs.len() {
        assert(docs.subrange(0, n + 1).drop_last() =~= docs.subrange(0, n));
        lemma_doc_index_prefix(docs, id, n + 1);
    } else {
        assert(docs.subrange(0, n) =~= docs);
    }
}

/// Where ids are distinct, a review is found at its own position.
proof fn lemma_doc_index_unique(docs: Seq<ReviewView>, i: int)
    requires
        0 <= i < docs.len(),
        forall|a: int, b: int| 0 <= a < b < docs.len() ==> docs[a].id != docs[b].id,
    ensures
        doc_index(docs, docs[i].id) == Some(i),
    decreases docs.len(),
{
    if i < docs.len() - 1 {
        let d = docs.drop_last();
        assert forall|a: int, b: int| 0 <= a < b < d.len() implies d[a].id != d[b].id by {
            assert(d[a] == docs[a] && d[b] == docs[b]);
        }
        assert(d[i] == docs[i]);
        lemma_doc_index_unique(d, i);
    } else {
        lemma_doc_index_bound(docs.drop_last(), docs[i].id);
        match doc_index(docs.drop_last(), docs[i].id) {
            Some(j) => {
                assert(docs.drop_last()[j] == docs[j]);
            },
            None => {},
        }
    }
}

impl JsonLedger {
    /// The stored reviews as values.
    pub open spec fn docs(&self) -> Seq<ReviewView> {
        Seq::new(self.reviews@.len(), |i: int| self.reviews@[i]@)
    }

    /// Every id is stored once.
    pub open spec fn wf(&self) -> bool {
        forall|a: int, b: int|
            0 <= a < b < self.reviews@.len() ==> (#[trigger] self.reviews@[a]).id != (#[trigger] self.reviews@[b]).id
    }

    pub fn new() -> (r: JsonLedger)
        ensures
            r.wf(),
            r.docs().len() == 0,
            r.index@.len() == 0,
    {
        JsonLedger { reviews: Vec::new(), index: ReviewIndex::new() }
    }

    /// Position of the review with id `id`.
    fn position(&self, id: u128) -> (r: Option<usize>)
        ensures
            match r {
                Some(i) => i < self.reviews@.len() && doc_index(self.docs(), id) == Some(i as int),
                None => doc_index(self.docs(), id) is None,
            },
    {
        let mut i: usize = 0;
        while i < self.reviews.len()
            invariant
                i <= self.reviews@.len(),
                doc_index(self.docs().subrange(0, i as int), id) is None,
            decreases self.reviews.len() - i,
        {
            let ghost pre = self.docs().subrange(0, i + 1);
            assert(pre.drop_last() =~= self.docs().subrange(0, i as int));
            assert(pre.last() == self.reviews@[i as int]@);
            if self.reviews[i].id == id {
                proof { lemma_doc_index_prefix(self.docs(), id, i + 1); }
                return Some(i);
            }
            i = i + 1;
        }
        assert(self.docs().subrange(0, i as int) =~= self.docs());
        None
    }

    /// Saves `review`: replaces the stored review with its id, or adds it,
    /// and replaces its index entry.
    pub fn save(&mut self, review: &Review)
        requires
            old(self).wf(),
        ensures
            final(self).wf(),
            final(self).docs() == saved(old(self).docs(), review@),
            final(self).index@ == recorded(old(self).index@, review@),
    {
        let copy = review.duplicate();
        match self.position(review.id) {
            Some(i) => {
                proof { lemma_doc_index_bound(old(self).docs(), review.id); }
                assert(old(self).docs()[i as int].id == old(self).reviews@[i as int].id);
                self.reviews.set(i, copy);
                assert(self.docs() =~= old(self).docs().update(i as int, review@));
                assert forall|k: int| 0 <= k < self.reviews@.len() implies #[trigger] self.reviews@[k].id
                    == old(self).reviews@[k].id by {
                    if k != i {
                        assert(self.reviews@[k] == old(self).reviews@[k]);
                    }
                }
            },
            None => {
                proof { lemma_doc_index_bound(old(self).docs(), review.id); }
                self.reviews.push(copy);
                assert(self.docs() =~= old(self).docs().push(review@));
                assert forall|a: int, b: int| 0 <= a < b < self.reviews@.len() implies (
                #[trigger] self.reviews@[a]).id != (#[trigger] self.reviews@[b]).id by {
                    if b == self.reviews@.len() - 1 {
                        assert(old(self).docs()[a].id == self.reviews@[a].id);
                    }
                }
            },
        }
        self.index.record(review);
    }

    /// The stored review with id `id`.
    pub fn load(&self, id: u128) -> (r: Option<Review>)
        ensures
            match lookup(self.docs(), id) {
                Some(v) => r is Some && r->0@ == v,
                None => r is None,
            },
    {
        match self.position(id) {
            Some(i) => Some(self.reviews[i].duplicate()),
            None => None,
        }
    }

    /// The most recently saved review for pull request `pr_number` of `repo`.
    pub fn load_by_pr(&self, repo: &str, pr_number: u64) -> (r: Option<Review>)
        ensures
            match last_by_pr(self.index@, repo@, pr_number) {
                Some(id) => match lookup(self.docs(), id) {
                    Some(v) => r is Some && r->0@ == v,
                    None => r is None,
                },
                None => r is None,
            },
    {
        match self.index.find_by_pr(repo, pr_number) {
            Some(id) => self.load(id),
            None => None,
        }
    }

    /// The most recently saved review for commit `commit_sha` of `repo`.
    pub fn load_by_commit(&self, repo: &str, commit_sha: &str) -> (r: Option<Review>)
        ensures
            match last_by_commit(self.index@, repo@, commit_sha@) {
                Some(id) => match lookup(self.docs(), id) {
                    Some(v) => r is Some && r->0@ == v,
                    None => r is None,
                },
                None => r is None,
            },
    {
        match self.index.find_by_commit(repo, commit_sha) {
            Some(id) => self.load(id),
            None => None,
        }
    }

    /// The stored reviews whose index entry is pending, in index order.
    pub fn list_pending(&self) -> (r: Vec<Review>)
        ensures
            Seq::new(r@.len(), |i: int| r@[i]@) == listed(
                self.index@,
                self.docs(),
                |e: ReviewIndexEntryView| e.status == ReviewStatus::Pending,
            ),
    {
        let ghost keep = |e: ReviewIndexEntryView| e.status == ReviewStatus::Pending;
        let mut out: Vec<Review> = Vec::new();
        let mut i: usize = 0;
        while i < self.index.reviews.len()
            invariant
                i <= self.index.reviews@.len(),
                keep == (|e: ReviewIndexEntryView| e.status == ReviewStatus::Pending),
                Seq::new(out@.len(), |k: int| out@[k]@) == listed(
                    self.index@.subrange(0, i as int),
                    self.docs(),
                    keep,
                ),
            decreases self.index.reviews.len() - i,
        {
            let ghost pre = self.index@.subrange(0, i + 1);
            assert(pre.drop_last() =~= self.index@.subrange(0, i as int));
            assert(pre.last() == self.index.reviews@[i as int]@);
            let ghost prev = Seq::new(out@.len(), |k: int| out@[k]@);
            if self.index.reviews[i].status == ReviewStatus::Pending {
                match self.load(self.index.reviews[i].id) {
                    Some(rv) => {
                        out.push(rv);
                        assert(Seq::new(out@.len(), |k: int| out@[k]@) =~= prev.push(out@.last()@));
                    },
                    None => {},
                }
            }
            i = i + 1;
        }
        assert(self.index@.subrange(0, i as int) =~= self.index@);
        out
    }

    /// The stored reviews of `repo`, in index order.
    pub fn list_by_repo(&self, repo: &str) -> (r: Vec<Review>)
        ensures
            Seq::new(r@.len(), |i: int| r@[i]@) == listed(
                self.index@,
                self.docs(),
                |e: ReviewIndexEntryView| e.repo == repo@,
            ),
    {
        let ghost keep = |e: ReviewIndexEntryView| e.repo == repo@;
        let target = repo.to_owned();
        let mut out: Vec<Review> = Vec::new();
        let mut i: usize = 0;
        while i < self.index.reviews.len()
            invariant
                i <= self.index.reviews@.len(),
                target@ == repo@,
                keep == (|e: ReviewIndexEntryView| e.repo == repo@),
                Seq::new(out@.len(), |k: int| out@[k]@) == listed(
                    self.index@.subrange(0, i as int),
                    self.docs(),
                    keep,
                ),
            decreases self.index.reviews.len() - i,
        {
            let ghost pre = self.index@.subrange(0, i + 1);
            assert(pre.drop_last() =~= self.index@.subrange(0, i as int));
            assert(pre.last() == self.index.reviews@[i as int]@);
            let ghost prev = Seq::new(out@.len(), |k: int| out@[k]@);
            if self.index.reviews[i].repo == target {
                match self.load(self.index.reviews[i].id) {
                    Some(rv) => {
                        out.push(rv);
                        assert(Seq::new(out@.len(), |k: int| out@[k]@) =~= prev.push(out@.last()@));
                    },
                    None => {},
                }
            }
            i = i + 1;
        }
        assert(self.index@.subrange(0, i as int) =~= self.index@);
        out
    }
}

proof fn lemma_doc_index_same_ids(d1: Seq<ReviewView>, d2: Seq<ReviewView>, id: u128)
    requires
        d1.len() == d2.len(),
        forall|k: int| 0 <= k < d1.len() ==> d1[k].id == d2[k].id,
    ensures
        doc_index(d1, id) == doc_index(d2, id),
    decreases d1.len(),
{
    if d1.len() > 0 {
        assert forall|k: int| 0 <= k < d1.len() - 1 implies d1.drop_last()[k].id == d2.drop_last()[k].id by {
            assert(d1.drop_last()[k] == d1[k] && d2.drop_last()[k] == d2[k]);
        }
        lemma_doc_index_same_ids(d1.drop_last(), d2.drop_last(), id);
    }
}

proof fn lemma_without_id_twice(es: Seq<ReviewIndexEntryView>, id: u128)
    ensures
        without_id(without_id(es, id), id) == without_id(es, id),
    decreases es.len(),
{
    if es.len() > 0 {
        lemma_without_id_twice(es.drop_last(), id);
        let w = without_id(es.drop_last(), id);
        if es.last().id != id {
            assert(w.push(es.last()).drop_last() =~= w);
        }
    }
}

/// Saving a review and then loading it by id gives it back; so does a lookup
/// by its repository and commit, and by its repository and pull request when
/// it has one.
pub proof fn law_save_then_load(docs: Seq<ReviewView>, es: Seq<ReviewIndexEntryView>, r: ReviewView)
    ensures
        lookup(saved(docs, r), r.id) == Some(r),
        last_by_commit(recorded(es, r), r.repo, r.commit_sha) == Some(r.id),
        r.pr_number is Some ==> last_by_pr(recorded(es, r), r.repo, r.pr_number->0) == Some(r.id),
{
    lemma_doc_index_bound(docs, r.id);
    match doc_index(docs, r.id) {
        Some(i) => {
            let d2 = docs.update(i, r);
            lemma_doc_index_same_ids(docs, d2, r.id);
        },
        None => {
            assert(docs.push(r).drop_last() =~= docs);
        },
    }
}

/// Saving under an id that is already stored replaces that review in place:
/// no review and no index entry is added, and the id then gives the newer one.
pub proof fn law_resave_in_place(
    docs: Seq<ReviewView>,
    es: Seq<ReviewIndexEntryView>,
    r1: ReviewView,
    r2: ReviewView,
)
    requires
        r1.id == r2.id,
    ensures
        saved(saved(docs, r1), r2).len() == saved(docs, r1).len(),
        lookup(saved(saved(docs, r1), r2), r2.id) == Some(r2),
        recorded(recorded(es, r1), r2) == recorded(es, r2),
{
    law_save_then_load(docs, es, r1);
    law_save_then_load(saved(docs, r1), es, r2);
    assert(doc_index(saved(docs, r1), r2.id) is Some);
    lemma_doc_index_bound(saved(docs, r1), r2.id);
    let w = without_id(es, r1.id);
    lemma_without_id_twice(es, r1.id);
    assert(w.push(entry_of(r1)).drop_last() =~= w);
}

/// Counts for a repository's dashboard.
#[derive(Debug, Clone)]
pub struct RepoStats {
    pub pending_reviews: u64,
    pub decided_reviews: u64,
    pub total_reviews: u64,
    pub pending_suggestions: u64,
    pub critical_pending: u64,
}

/// Whether marking stale applies to a review.
pub open spec fn goes_stale(repo: Seq<char>, pr: u64, except_id: u128, id: u128, r_repo: Seq<char>, r_pr: Option<u64>, status: ReviewStatus) -> bool {
    r_repo == repo && r_pr == Some(pr) && id != except_id && status == ReviewStatus::Pending
}

pub open spec fn staled(r: ReviewView, repo: Seq<char>, pr: u64, except_id: u128) -> ReviewView {
    if goes_stale(repo, pr, except_id, r.id, r.repo, r.pr_number, r.status) {
        ReviewView { status: ReviewStatus::Stale, ..r }
    } else {
        r
    }
}

pub open spec fn staled_entry(e: ReviewIndexEntryView, repo: Seq<char>, pr: u64, except_id: u128) -> ReviewIndexEntryView {
    if goes_stale(repo, pr, except_id, e.id, e.repo, e.pr_number, e.status) {
        ReviewIndexEntryView { status: ReviewStatus::Stale, ..e }
    } else {
        e
    }
}

/// How many reviews marking stale applies to.
pub open spec fn stale_count(docs: Seq<ReviewView>, repo: Seq<char>, pr: u64, except_id: u128) -> nat
    decreases docs.len(),
{
    if docs.len() == 0 {
        0
    } else {
        stale_count(docs.drop_last(), repo, pr, except_id) + if goes_stale(
            repo,
            pr,
            except_id,
            docs.last().id,
            docs.last().repo,
            docs.last().pr_number,
            docs.last().status,
        ) {
            1nat
        } else {
            0nat
        }
    }
}

/// Reviews of `repo` with the given status.
pub open spec fn count_status(docs: Seq<ReviewView>, repo: Seq<char>, st: Option<ReviewStatus>) -> nat
    decreases docs.len(),
{
    if docs.len() == 0 {
        0
    } else {
        count_status(docs.drop_last(), repo, st) + if docs.last().repo == repo && (st is None
            || st == Some(docs.last().status)) {
            1nat
        } else {
            0nat
        }
    }
}

/// Undecided suggestions (of severity `sev`, when given) in the pending reviews of `repo`.
pub open spec fn count_undecided(docs: Seq<ReviewView>, repo: Seq<char>, sev: Option<Severity>) -> nat
    decreases docs.len(),
{
    if docs.len() == 0 {
        0
    } else {
        count_undecided(docs.drop_last(), repo, sev) + if docs.last().repo == repo
            && docs.last().status == ReviewStatus::Pending {
            undecided_of(docs.last().suggestions, sev)
        } else {
            0nat
        }
    }
}

pub open spec fn undecided_of(items: Seq<SuggestionItem>, sev: Option<Severity>) -> nat
    decreases items.len(),
{
    if items.len() == 0 {
        0
    } else {
        undecided_of(items.drop_last(), sev) + if items.last().decision is None && (sev is None
            || sev == Some(items.last().suggestion.severity)) {
            1nat
        } else {
            0nat
        }
    }
}

fn undecided_count(items: &Vec<SuggestionItem>, sev: Option<Severity>) -> (r: u64)
    requires
        undecided_of(items@, sev) <= u64::MAX,
    ensures
        r as nat == undecided_of(items@, sev),
{
    let mut n: u64 = 0;
    let mut i: usize = 0;
    while i < items.len()
        invariant
            i <= items@.len(),
            undecided_of(items@, sev) <= u64::MAX,
            n as nat == undecided_of(items@.subrange(0, i as int), sev),
        decreases items.len() - i,
    {
        assert(items@.subrange(0, i + 1).drop_last() =~= items@.subrange(0, i as int));
        proof { lemma_undecided_prefix(items@, sev, i + 1); }
        let it = &items[i];
        let hit = it.decision.is_none() && match sev {
            Some(s) => it.suggestion.severity == s,
            None => true,
        };
        if hit {
            n = n + 1;
        }
        i = i + 1;
    }
    assert(items@.subrange(0, i as int) =~= items@);
    n
}

proof fn lemma_undecided_prefix(items: Seq<SuggestionItem>, sev: Option<Severity>, n: int)
    requires
        0 <= n <= items.len(),
    ensures
        undecided_of(items.subrange(0, n), sev) <= undecided_of(items, sev),
    decreases items.len() - n,
{
    if n < items.len() {
        assert(items.subrange(0, n + 1).drop_last() =~= items.subrange(0, n));
        lemma_undecided_prefix(items, sev, n + 1);
    } else {
        assert(items.subrange(0, n) =~= items);
    }
}

proof fn lemma_count_undecided_prefix(docs: Seq<ReviewView>, repo: Seq<char>, sev: Option<Severity>, n: int)
    requires
        0 <= n <= docs.len(),
    ensures
        count_undecided(docs.subrange(0, n), repo, sev) <= count_undecided(docs, repo, sev),
    decreases docs.len() - n,
{
    if n < docs.len() {
        assert(docs.subrange(0, n + 1).drop_last() =~= docs.subrange(0, n));
        lemma_count_undecided_prefix(docs, repo, sev, n + 1);
    } else {
        assert(docs.subrange(0, n) =~= docs);
    }
}

proof fn lemma_count_status_bound(docs: Seq<ReviewView>, repo: Seq<char>, st: Option<ReviewStatus>)
    ensures
        count_status(docs, repo, st) <= docs.len(),
    decreases docs.len(),
{
    if docs.len() > 0 {
        lemma_count_status_bound(docs.drop_last(), repo, st);
    }
}

impl JsonLedger {
    /// Marks stale every pending review of pull request `pr` of `repo` but
    /// `except_id`, in the documents and the index; returns how many reviews
    /// were marked.
    pub fn mark_stale(&mut self, repo: &str, pr: u64, except_id: u128) -> (r: u64)
        requires
            old(self).wf(),
        ensures
            final(self).wf(),
            final(self).docs() == Seq::new(
                old(self).docs().len(),
                |i: int| staled(old(self).docs()[i], repo@, pr, except_id),
            ),
            final(self).index@ == Seq::new(
                old(self).index@.len(),
                |i: int| staled_entry(old(self).index@[i], repo@, pr, except_id),
            ),
            r as nat == stale_count(old(self).docs(), repo@, pr, except_id),
    {
        let target = repo.to_owned();
        let mut count: u64 = 0;
        let mut i: usize = 0;
        let ghost d0 = self.docs();
        while i < self.reviews.len()
            invariant
                i <= self.reviews@.len() == d0.len(),
                d0 == old(self).docs(),
                target@ == repo@,
                self.index == old(self).index,
                forall|k: int| 0 <= k < self.reviews@.len() ==> (#[trigger] self.reviews@[k]).id == d0[k].id,
                forall|k: int| 0 <= k < i ==> #[trigger] self.reviews@[k]@ == staled(d0[k], repo@, pr, except_id),
                forall|k: int| i <= k < d0.len() ==> #[trigger] self.reviews@[k]@ == d0[k],
                count as nat == stale_count(d0.subrange(0, i as int), repo@, pr, except_id),
                count <= i,
            decreases d0.len() - i,
        {
            assert(d0.subrange(0, i + 1).drop_last() =~= d0.subrange(0, i as int));
            assert(self.reviews@[i as int]@ == d0[i as int]);
            let hit = {
                let rv = &self.reviews[i];
                rv.repo == target && rv.pr_number == Some(pr) && rv.id != except_id && rv.status
                    == ReviewStatus::Pending
            };
            if hit {
                let mut rv = self.reviews[i].duplicate();
                rv.status = ReviewStatus::Stale;
                self.reviews.set(i, rv);
                count = count + 1;
            }
            i = i + 1;
        }
        assert(d0.subrange(0, i as int) =~= d0);
        assert(self.docs() =~= Seq::new(d0.len(), |k: int| staled(d0[k], repo@, pr, except_id)));
        assert forall|a: int, b: int| 0 <= a < b < self.reviews@.len() implies (
        #[trigger] self.reviews@[a]).id != (#[trigger] self.reviews@[b]).id by {
            assert(old(self).reviews@[a]@ == d0[a] && old(self).reviews@[b]@ == d0[b]);
        }
        let ghost rv0 = self.reviews@;
        let ghost docs1 = self.docs();
        let ghost e0 = self.index@;
        let mut k: usize = 0;
        while k < self.index.reviews.len()
            invariant
                k <= self.index.reviews@.len() == e0.len(),
                e0 == old(self).index@,
                target@ == repo@,
                self.reviews@ == rv0,
                self.wf(),
                self.docs() == docs1,
                forall|q: int| 0 <= q < k ==> #[trigger] self.index.reviews@[q]@ == staled_entry(e0[q], repo@, pr, except_id),
                forall|q: int| k <= q < e0.len() ==> #[trigger] self.index.reviews@[q]@ == e0[q],
            decreases e0.len() - k,
        {
            assert(self.index.reviews@[k as int]@ == e0[k as int]);
            let e = &self.index.reviews[k];
            if e.repo == target && e.pr_number == Some(pr) && e.id != except_id && e.status
                == ReviewStatus::Pending {
                let updated = ReviewIndexEntry {
                    id: e.id,
                    repo: e.repo.clone(),
                    pr_number: e.pr_number,
                    commit_sha: e.commit_sha.clone(),
                    status: ReviewStatus::Stale,
                };
                self.index.reviews.set(k, updated);
            }
            k = k + 1;
        }
        assert(self.index@ =~= Seq::new(e0.len(), |q: int| staled_entry(e0[q], repo@, pr, except_id)));
        count
    }

    /// Review and suggestion counts for `repo`: pending, decided and all
    /// reviews, and the undecided (and undecided critical) suggestions of its
    /// pending reviews.
    pub fn get_stats(&self, repo: &str) -> (r: RepoStats)
        requires
            count_undecided(self.docs(), repo@, None) <= u64::MAX,
            count_undecided(self.docs(), repo@, Some(Severity::Critical)) <= u64::MAX,
        ensures
            r.pending_reviews as nat == count_status(self.docs(), repo@, Some(ReviewStatus::Pending)),
            r.decided_reviews as nat == count_status(self.docs(), repo@, Some(ReviewStatus::Decided)),
            r.total_reviews as nat == count_status(self.docs(), repo@, None),
            r.pending_suggestions as nat == count_undecided(self.docs(), repo@, None),
            r.critical_pending as nat == count_undecided(self.docs(), repo@, Some(Severity::Critical)),
    {
        let target = repo.to_owned();
        let ghost d = self.docs();
        let mut stats = RepoStats {
            pending_reviews: 0,
            decided_reviews: 0,
            total_reviews: 0,
            pending_suggestions: 0,
            critical_pending: 0,
        };
        let mut i: usize = 0;
        while i < self.reviews.len()
            invariant
                i <= self.reviews@.len() == d.len(),
                d == self.docs(),
                target@ == repo@,
                count_undecided(d, repo@, None) <= u64::MAX,
                count_undecided(d, repo@, Some(Severity::Critical)) <= u64::MAX,
                stats.pending_reviews as nat == count_status(d.subrange(0, i as int), repo@, Some(ReviewStatus::Pending)),
                stats.decided_reviews as nat == count_status(d.subrange(0, i as int), repo@, Some(ReviewStatus::Decided)),
                stats.total_reviews as nat == count_status(d.subrange(0, i as int), repo@, None),
                stats.pending_suggestions as nat == count_undecided(d.subrange(0, i as int), repo@, None),
                stats.critical_pending as nat == count_undecided(d.subrange(0, i as int), repo@, Some(Severity::Critical)),
            decreases d.len() - i,
        {
            let ghost pre = d.subrange(0, i + 1);
            assert(pre.drop_last() =~= d.subrange(0, i as int));
            assert(pre.last() == self.reviews@[i as int]@);
            proof {
                lemma_count_status_bound(pre.drop_last(), repo@, None);
                lemma_count_status_bound(pre.drop_last(), repo@, Some(ReviewStatus::Pending));
                lemma_count_status_bound(pre.drop_last(), repo@, Some(ReviewStatus::Decided));
                lemma_count_undecided_prefix(d, repo@, None, i + 1);
                lemma_count_undecided_prefix(d, repo@, Some(Severity::Critical), i + 1);
            }
            let rv = &self.reviews[i];
            if rv.repo == target {
                stats.total_reviews = stats.total_reviews + 1;
                if rv.status == ReviewStatus::Pending {
                    stats.pending_reviews = stats.pending_reviews + 1;
                    stats.pending_suggestions = stats.pending_suggestions + undecided_count(&rv.suggestions, None);
                    stats.critical_pending = stats.critical_pending + undecided_count(
                        &rv.suggestions,
                        Some(Severity::Critical),
                    );
                } else if rv.status == ReviewStatus::Decided {
                    stats.decided_reviews = stats.decided_reviews + 1;
                }
            }
            i = i + 1;
        }
        assert(d.subrange(0, i as int) =~= d);
        stats
    }
}

pub open spec fn status_name(s: ReviewStatus) -> Seq<char> {
    match s {
        ReviewStatus::Pending => "pending"@,
        ReviewStatus::Decided => "decided"@,
        ReviewStatus::Applied => "applied"@,
        ReviewStatus::Stale => "stale"@,
    }
}

pub open spec fn decision_name(d: HumanDecision) -> Seq<char> {
    match d {
        HumanDecision::Accepted => "accepted"@,
        HumanDecision::Rejected => "rejected"@,
        HumanDecision::Deferred => "deferred"@,
    }
}

/// The stored text of a status.
pub fn status_to_str(status: ReviewStatus) -> (r: &'static str)
    ensures
        r@ == status_name(status),
{
    match status {
        ReviewStatus::Pending => "pending",
        ReviewStatus::Decided => "decided",
        ReviewStatus::Applied => "applied",
        ReviewStatus::Stale => "stale",
    }
}

/// The status a stored text names; unknown text reads as pending.
pub fn str_to_status(s: &str) -> (r: ReviewStatus)
    ensures
        (r == ReviewStatus::Pending && s@ != "decided"@ && s@ != "applied"@ && s@ != "stale"@)
            || status_name(r) == s@,
{
    let t = s.to_owned();
    if t == "decided".to_owned() {
        ReviewStatus::Decided
    } else if t == "applied".to_owned() {
        ReviewStatus::Applied
    } else if t == "stale".to_owned() {
        ReviewStatus::Stale
    } else {
        ReviewStatus::Pending
    }
}

/// The stored text of a finding type.
pub fn suggestion_type_to_str(t: SuggestionType) -> (r: &'static str)
    ensures
        r@ == kind_name(t),
{
    match t {
        SuggestionType::Security => "security",
        SuggestionType::Performance => "performance",
        SuggestionType::Style => "style",
        SuggestionType::Logic => "logic",
        SuggestionType::Documentation => "documentation",
    }
}

/// The finding type a stored text names; unknown text reads as logic.
pub fn str_to_suggestion_type(s: &str) -> (r: SuggestionType)
    ensures
        r == crate::adapters::kind_of(s@),
{
    crate::adapters::parse_suggestion_type(&s.to_owned())
}

/// The stored text of a severity.
pub fn severity_to_str(s: Severity) -> (r: &'static str)
    ensures
        r@ == severity_name(s),
{
    match s {
        Severity::Critical => "critical",
        Severity::High => "high",
        Severity::Medium => "medium",
        Severity::Low => "low",
    }
}

/// The severity a stored text names; unknown text reads as low.
pub fn str_to_severity(s: &str) -> (r: Severity)
    ensures
        r == crate::adapters::severity_of(s@),
{
    crate::adapters::parse_severity(&s.to_owned())
}

/// The stored text of a verdict.
pub fn decision_to_str(d: HumanDecision) -> (r: &'static str)
    ensures
        r@ == decision_name(d),
{
    match d {
        HumanDecision::Accepted => "accepted",
        HumanDecision::Rejected => "rejected",
        HumanDecision::Deferred => "deferred",
    }
}

/// The verdict a stored text names; unknown text reads as deferred.
pub fn str_to_decision(s: &str) -> (r: HumanDecision)
    ensures
        (r == HumanDecision::Deferred && s@ != "accepted"@ && s@ != "rejected"@) || decision_name(r)
            == s@,
{
    let t = s.to_owned();
    if t == "accepted".to_owned() {
        HumanDecision::Accepted
    } else if t == "rejected".to_owned() {
        HumanDecision::Rejected
    } else {
        HumanDecision::Deferred
    }
}

} // verus!
