//! Reviews, suggestions and the verdicts recorded against them.
use vstd::prelude::*;

verus! {

/// How serious a finding is.
#[derive(Debug, Clone, Copy, PartialEq, Eq, Structural)]
pub enum Severity {
    Critical,
    High,
    Medium,
    Low,
}

/// What kind of finding it is.
#[derive(Debug, Clone, Copy, PartialEq, Eq, Structural)]
pub enum SuggestionType {
    Security,
    Performance,
    Style,
    Logic,
    Documentation,
}

/// Where in the source a finding points.
#[derive(Debug, Clone)]
pub struct Location {
    pub file: String,
    pub line_start: u32,
    pub line_end: u32,
}

/// One finding reported by the review service.
#[derive(Debug, Clone)]
pub struct Suggestion {
    pub id: String,
    pub suggestion_type: SuggestionType,
    pub severity: Severity,
    pub location: Location,
    pub description: String,
    pub proposed_fix: Option<String>,
}

/// What a second opinion recommends doing with a suggestion.
#[derive(Debug, Clone, Copy, PartialEq, Eq, Structural)]
pub enum RecommendedAction {
    Accept,
    Reject,
    Modify,
}

/// Confidence is held in basis points: 10000 stands for certainty.
pub const CONFIDENCE_SCALE: u32 = 10000;

/// A second opinion on one suggestion.
#[derive(Debug, Clone)]
pub struct Recommendation {
    pub suggestion_id: String,
    pub action: RecommendedAction,
    /// In basis points, at most `CONFIDENCE_SCALE`.
    pub confidence_bp: u32,
    pub rationale: String,
    pub modified_fix: Option<String>,
}

/// The verdict on a suggestion.
#[derive(Debug, Clone, Copy, PartialEq, Eq, Structural)]
pub enum HumanDecision {
    Accepted,
    Rejected,
    Deferred,
}

/// A verdict, who gave it and when (seconds since the Unix epoch).
#[derive(Debug, Clone)]
pub struct DecisionRecord {
    pub suggestion_id: String,
    pub decision: HumanDecision,
    pub reason: Option<String>,
    pub decided_by: String,
    pub decided_at: i64,
}

/// Where a review stands.
#[derive(Debug, Clone, Copy, PartialEq, Eq, Structural)]
pub enum ReviewStatus {
    Pending,
    Decided,
    Applied,
    Stale,
}

/// One review run on one commit.
#[derive(Debug, Clone)]
pub struct Review {
    /// Opaque unique key (the 128 bits of a UUID).
    pub id: u128,
    pub pr_number: Option<u64>,
    pub repo: String,
    pub branch: Option<String>,
    pub commit_sha: String,
    /// Seconds since the Unix epoch.
    pub created_at: i64,
    pub status: ReviewStatus,
    pub suggestions: Vec<SuggestionWithRecommendation>,
}

/// A suggestion with its optional second opinion and optional verdict.
#[derive(Debug, Clone)]
pub struct SuggestionWithRecommendation {
    pub suggestion: Suggestion,
    pub recommendation: Option<Recommendation>,
    pub decision: Option<DecisionRecord>,
}

/// The name used for a suggestion item throughout the pipeline.
pub type SuggestionItem = SuggestionWithRecommendation;

/// What a review request is about.
#[derive(Debug, Clone)]
pub struct ReviewContext {
    pub pr_number: Option<u64>,
    pub repo: String,
    pub branch: Option<String>,
    pub commit_sha: String,
    pub base_sha: Option<String>,
}

/// Failures that the pipeline reports to its caller.
#[derive(Debug, Clone, PartialEq, Eq)]
pub enum ReviewError {
    /// A lookup on a decide or show operation found nothing.
    NotFound,
    /// A collaborator answered with a failure status or a malformed body.
    ExternalService { status: u16, body: String },
    /// Storage could not be read or written.
    Persistence(String),
    /// A payload was not valid even after defensive extraction.
    Parse(String),
    /// A repository name is not of the form `owner/repo`.
    InvalidRepo(String),
}

pub fn copy_opt_string(s: &Option<String>) -> (r: Option<String>)
    ensures
        r == *s,
{
    match s {
        Some(x) => Some(x.clone()),
        None => None,
    }
}

impl Location {
    pub fn duplicate(&self) -> (r: Location)
        ensures
            r == *self,
    {
        Location { file: self.file.clone(), line_start: self.line_start, line_end: self.line_end }
    }
}

impl Suggestion {
    pub fn duplicate(&self) -> (r: Suggestion)
        ensures
            r == *self,
    {
        Suggestion {
            id: self.id.clone(),
            suggestion_type: self.suggestion_type,
            severity: self.severity,
            location: self.location.duplicate(),
            description: self.description.clone(),
            proposed_fix: copy_opt_string(&self.proposed_fix),
        }
    }
}

impl Recommendation {
    pub fn duplicate(&self) -> (r: Recommendation)
        ensures
            r == *self,
    {
        Recommendation {
            suggestion_id: self.suggestion_id.clone(),
            action: self.action,
            confidence_bp: self.confidence_bp,
            rationale: self.rationale.clone(),
            modified_fix: copy_opt_string(&self.modified_fix),
        }
    }
}

impl DecisionRecord {
    pub fn duplicate(&self) -> (r: DecisionRecord)
        ensures
            r == *self,
    {
        DecisionRecord {
            suggestion_id: self.suggestion_id.clone(),
            decision: self.decision,
            reason: copy_opt_string(&self.reason),
            decided_by: self.decided_by.clone(),
            decided_at: self.decided_at,
        }
    }
}

impl SuggestionWithRecommendation {
    pub fn duplicate(&self) -> (r: SuggestionWithRecommendation)
        ensures
            r == *self,
    {
        SuggestionWithRecommendation {
            suggestion: self.suggestion.duplicate(),
            recommendation: match &self.recommendation {
                Some(x) => Some(x.duplicate()),
                None => None,
            },
            decision: match &self.decision {
                Some(x) => Some(x.duplicate()),
                None => None,
            },
        }
    }
}

pub fn copy_items(v: &Vec<SuggestionItem>) -> (r: Vec<SuggestionItem>)
    ensures
        r@ == v@,
{
    let mut out: Vec<SuggestionItem> = Vec::new();
    let mut i: usize = 0;
    while i < v.len()
        invariant
            i <= v.len(),
            out@ == v@.subrange(0, i as int),
        decreases v.len() - i,
    {
        out.push(v[i].duplicate());
        i = i + 1;
        assert(out@ =~= v@.subrange(0, i as int));
    }
    assert(v@.subrange(0, v.len() as int) =~= v@);
    out
}

impl ReviewContext {
    pub fn duplicate(&self) -> (r: ReviewContext)
        ensures
            r == *self,
    {
        ReviewContext {
            pr_number: self.pr_number,
            repo: self.repo.clone(),
            branch: copy_opt_string(&self.branch),
            commit_sha: self.commit_sha.clone(),
            base_sha: copy_opt_string(&self.base_sha),
        }
    }
}

/// A review as a mathematical value.
pub struct ReviewView {
    pub id: u128,
    pub pr_number: Option<u64>,
    pub repo: Seq<char>,
    pub branch: Option<String>,
    pub commit_sha: Seq<char>,
    pub created_at: i64,
    pub status: ReviewStatus,
    pub suggestions: Seq<SuggestionItem>,
}

impl View for Review {
    type V = ReviewView;

    open spec fn view(&self) -> ReviewView {
        ReviewView {
            id: self.id,
            pr_number: self.pr_number,
            repo: self.repo@,
            branch: self.branch,
            commit_sha: self.commit_sha@,
            created_at: self.created_at,
            status: self.status,
            suggestions: self.suggestions@,
        }
    }
}

/// Whether every item carries a verdict.
pub open spec fn all_decided(items: Seq<SuggestionItem>) -> bool {
    forall|i: int| 0 <= i < items.len() ==> (#[trigger] items[i]).decision is Some
}

/// The items that have no verdict yet, in order.
pub open spec fn undecided(items: Seq<SuggestionItem>) -> Seq<SuggestionItem>
    decreases items.len(),
{
    if items.len() == 0 {
        seq![]
    } else if items.last().decision is None {
        undecided(items.drop_last()).push(items.last())
    } else {
        undecided(items.drop_last())
    }
}

/// The items of the given severity, in order.
pub open spec fn of_severity(items: Seq<SuggestionItem>, sev: Severity) -> Seq<SuggestionItem>
    decreases items.len(),
{
    if items.len() == 0 {
        seq![]
    } else if items.last().suggestion.severity == sev {
        of_severity(items.drop_last(), sev).push(items.last())
    } else {
        of_severity(items.drop_last(), sev)
    }
}

/// Index of the first item whose suggestion has the given id, if any.
pub open spec fn index_of_id(items: Seq<SuggestionItem>, id: Seq<char>) -> Option<int>
    decreases items.len(),
{
    if items.len() == 0 {
        None
    } else {
        match index_of_id(items.drop_last(), id) {
            Some(i) => Some(i),
            None => if items.last().suggestion.id@ == id {
                Some(items.len() - 1)
            } else {
                None
            },
        }
    }
}

/// `items` with `record` set as the verdict of item `i`.
pub open spec fn set_decision(items: Seq<SuggestionItem>, i: int, record: DecisionRecord) -> Seq<
    SuggestionItem,
> {
    items.update(i, SuggestionWithRecommendation { decision: Some(record), ..items[i] })
}

/// The status after a verdict was recorded: decided once no item is left
/// without a verdict, else as it was.
pub open spec fn decision_status(before: ReviewStatus, items: Seq<SuggestionItem>) -> ReviewStatus {
    if all_decided(items) {
        ReviewStatus::Decided
    } else {
        before
    }
}

/// Recording a verdict on a pending review makes it decided exactly when the
/// item was the last one without a verdict.
pub proof fn law_decided_at_last_verdict(
    items: Seq<SuggestionItem>,
    i: int,
    record: DecisionRecord,
)
    requires
        0 <= i < items.len(),
    ensures
        decision_status(ReviewStatus::Pending, set_decision(items, i, record))
            == ReviewStatus::Decided <==> (forall|j: int|
            0 <= j < items.len() && j != i ==> (#[trigger] items[j]).decision is Some),
{
    let after = set_decision(items, i, record);
    if forall|j: int| 0 <= j < items.len() && j != i ==> (#[trigger] items[j]).decision is Some {
        assert forall|j: int| 0 <= j < after.len() implies (#[trigger] after[j]).decision is Some by {
            if j != i {
                assert(items[j].decision is Some);
            }
        }
    } else {
        let j = choose|j: int| 0 <= j < items.len() && j != i && (#[trigger] items[j]).decision is None;
        assert(after[j].decision is None);
    }
}

/// Relies on `uuid::Uuid::new_v4`: a random identifier; nothing is promised of its bits.
#[verifier::external_body]
fn fresh_review_id() -> (r: u128) {
    uuid::Uuid::new_v4().as_u128()
}

/// Relies on `chrono::Utc::now`: the current time in whole seconds since the
/// Unix epoch; nothing is promised of its value.
#[verifier::external_body]
pub(crate) fn now_seconds() -> (r: i64) {
    chrono::Utc::now().timestamp()
}

impl Review {
    /// A new pending review for `context`, with a fresh random id and the current time.
    pub fn new(context: ReviewContext) -> (r: Review)
        ensures
            r.pr_number == context.pr_number,
            r.repo == context.repo,
            r.branch == context.branch,
            r.commit_sha == context.commit_sha,
            r.status == ReviewStatus::Pending,
            r.suggestions@.len() == 0,
    {
        let id = fresh_review_id();
        let now = now_seconds();
        Review::with_identity(context, id, now)
    }

    /// A new pending review for `context` with the given id and creation time.
    pub fn with_identity(context: ReviewContext, id: u128, created_at: i64) -> (r: Review)
        ensures
            r.id == id,
            r.created_at == created_at,
            r.pr_number == context.pr_number,
            r.repo == context.repo,
            r.branch == context.branch,
            r.commit_sha == context.commit_sha,
            r.status == ReviewStatus::Pending,
            r.suggestions@.len() == 0,
    {
        Review {
            id,
            pr_number: context.pr_number,
            repo: context.repo,
            branch: context.branch,
            commit_sha: context.commit_sha,
            created_at,
            status: ReviewStatus::Pending,
            suggestions: Vec::new(),
        }
    }

    pub fn duplicate(&self) -> (r: Review)
        ensures
            r@ == self@,
    {
        Review {
            id: self.id,
            pr_number: self.pr_number,
            repo: self.repo.clone(),
            branch: copy_opt_string(&self.branch),
            commit_sha: self.commit_sha.clone(),
            created_at: self.created_at,
            status: self.status,
            suggestions: copy_items(&self.suggestions),
        }
    }

    /// Whether every suggestion has a verdict.
    pub fn is_fully_decided(&self) -> (r: bool)
        ensures
            r == all_decided(self.suggestions@),
    {
        let mut i: usize = 0;
        while i < self.suggestions.len()
            invariant
                i <= self.suggestions.len(),
                forall|j: int| 0 <= j < i ==> (#[trigger] self.suggestions@[j]).decision is Some,
            decreases self.suggestions.len() - i,
        {
            if self.suggestions[i].decision.is_none() {
                return false;
            }
            i = i + 1;
        }
        true
    }

    /// The suggestions without a verdict, in order.
    pub fn pending_suggestions(&self) -> (r: Vec<&SuggestionWithRecommendation>)
        ensures
            r@.len() == undecided(self.suggestions@).len(),
            forall|k: int| 0 <= k < r@.len() ==> *(#[trigger] r@[k]) == undecided(self.suggestions@)[k],
    {
        let mut out: Vec<&SuggestionWithRecommendation> = Vec::new();
        let mut i: usize = 0;
        while i < self.suggestions.len()
            invariant
                i <= self.suggestions.len(),
                out@.len() == undecided(self.suggestions@.subrange(0, i as int)).len(),
                forall|k: int| 0 <= k < out@.len() ==> *(#[trigger] out@[k]) == undecided(
                    self.suggestions@.subrange(0, i as int),
                )[k],
            decreases self.suggestions.len() - i,
        {
            let ghost prev = self.suggestions@.subrange(0, i as int);
            assert(self.suggestions@.subrange(0, i + 1).drop_last() =~= prev);
            if self.suggestions[i].decision.is_none() {
                out.push(&self.suggestions[i]);
            }
            i = i + 1;
        }
        assert(self.suggestions@.subrange(0, i as int) =~= self.suggestions@);
        out
    }

    /// The suggestions of severity `severity`, in order.
    pub fn suggestions_by_severity(&self, severity: Severity) -> (r: Vec<&SuggestionWithRecommendation>)
        ensures
            r@.len() == of_severity(self.suggestions@, severity).len(),
            forall|k: int| 0 <= k < r@.len() ==> *(#[trigger] r@[k]) == of_severity(
                self.suggestions@,
                severity,
            )[k],
    {
        let mut out: Vec<&SuggestionWithRecommendation> = Vec::new();
        let mut i: usize = 0;
        while i < self.suggestions.len()
            invariant
                i <= self.suggestions.len(),
                out@.len() == of_severity(self.suggestions@.subrange(0, i as int), severity).len(),
                forall|k: int| 0 <= k < out@.len() ==> *(#[trigger] out@[k]) == of_severity(
                    self.suggestions@.subrange(0, i as int),
                    severity,
                )[k],
            decreases self.suggestions.len() - i,
        {
            let ghost prev = self.suggestions@.subrange(0, i as int);
            assert(self.suggestions@.subrange(0, i + 1).drop_last() =~= prev);
            if self.suggestions[i].suggestion.severity == severity {
                out.push(&self.suggestions[i]);
            }
            i = i + 1;
        }
        assert(self.suggestions@.subrange(0, i as int) =~= self.suggestions@);
        out
    }

    /// Records `record` as the verdict of item `i`; the review becomes decided
    /// once no item is left without a verdict.
    pub fn decide_at(&mut self, i: usize, record: DecisionRecord)
        requires
            i < old(self).suggestions@.len(),
        ensures
            final(self).suggestions@ == set_decision(old(self).suggestions@, i as int, record),
            final(self).status == decision_status(old(self).status, final(self).suggestions@),
            final(self).id == old(self).id,
            final(self).pr_number == old(self).pr_number,
            final(self).repo == old(self).repo,
            final(self).branch == old(self).branch,
            final(self).commit_sha == old(self).commit_sha,
            final(self).created_at == old(self).created_at,
    {
        let mut item = self.suggestions[i].duplicate();
        item.decision = Some(record);
        self.suggestions.set(i, item);
        assert(self.suggestions@ =~= set_decision(old(self).suggestions@, i as int, record));
        if self.is_fully_decided() {
            self.status = ReviewStatus::Decided;
        }
    }

    /// Index of the first suggestion with id `suggestion_id`.
    pub fn find_suggestion(&self, suggestion_id: &str) -> (r: Option<usize>)
        ensures
            match r {
                Some(i) => i < self.suggestions@.len() && index_of_id(self.suggestions@, suggestion_id@)
                    == Some(i as int),
                None => index_of_id(self.suggestions@, suggestion_id@) is None,
            },
    {
        let target = suggestion_id.to_owned();
        let mut i: usize = 0;
        while i < self.suggestions.len()
            invariant
                i <= self.suggestions.len(),
                target@ == suggestion_id@,
                index_of_id(self.suggestions@.subrange(0, i as int), suggestion_id@) is None,
            decreases self.suggestions.len() - i,
        {
            assert(self.suggestions@.subrange(0, i + 1).drop_last() =~= self.suggestions@.subrange(
                0,
                i as int,
            ));
            if self.suggestions[i].suggestion.id == target {
                proof { lemma_index_of_id_prefix(self.suggestions@, suggestion_id@, i + 1); }
                return Some(i);
            }
            i = i + 1;
        }
        assert(self.suggestions@.subrange(0, i as int) =~= self.suggestions@);
        None
    }

    /// Records `record` as the verdict of the first suggestion with id
    /// `suggestion_id`, the same path for human and automatic verdicts.
    pub fn decide(&mut self, suggestion_id: &str, record: DecisionRecord) -> (r: Result<(), ReviewError>)
        ensures
            match index_of_id(old(self).suggestions@, suggestion_id@) {
                None => r == Err::<(), ReviewError>(ReviewError::NotFound) && *final(self) == *old(self),
                Some(i) => {
                    &&& r is Ok
                    &&& final(self).suggestions@ == set_decision(old(self).suggestions@, i, record)
                    &&& final(self).status == decision_status(old(self).status, final(self).suggestions@)
                    &&& final(self).id == old(self).id
                    &&& final(self).repo == old(self).repo
                    &&& final(self).commit_sha == old(self).commit_sha
                },
            },
    {
        match self.find_suggestion(suggestion_id) {
            Some(i) => {
                self.decide_at(i, record);
                Ok(())
            },
            None => Err(ReviewError::NotFound),
        }
    }
}

/// A hit in a prefix is the first hit of the whole sequence.
proof fn lemma_index_of_id_prefix(items: Seq<SuggestionItem>, id: Seq<char>, n: int)
    requires
        0 <= n <= items.len(),
        index_of_id(items.subrange(0, n), id) is Some,
    ensures
        index_of_id(items, id) == index_of_id(items.subrange(0, n), id),
    decreases items.len() - n,
{
    if n < items.len() {
        assert(items.subrange(0, n + 1).drop_last() =~= items.subrange(0, n));
        lemma_index_of_id_prefix(items, id, n + 1);
    } else {
        assert(items.subrange(0, n) =~= items);
    }
}

} // verus!
