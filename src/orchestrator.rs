//! The review pipeline's decisions: deduplicate a request against the ledger,
//! build a review from the review service's findings, record it, and
//! render a summary.
//!
//! The call to the review service happens between `find_existing` and
//! `record_review`, and only when `find_existing` gave nothing: at most one
//! call per commit.
use vstd::prelude::*;
use vstd::string::*;

use crate::ledger::{JsonLedger, ReviewIndexEntryView, last_by_commit, last_by_pr, lookup, recorded, saved};
use crate::models::{
    Review, ReviewContext, ReviewStatus, ReviewView, Severity, Suggestion, SuggestionType,
    SuggestionWithRecommendation, of_severity,
};
use crate::text::decimal;
use crate::text::u64_text;

verus! {

/// Runs review requests against a ledger.
pub struct Orchestrator {
    pub ledger: JsonLedger,
}

/// The stored review a request is compared with: the latest for its pull
/// request when it names one, else the latest for its commit.
pub open spec fn prior_review(
    docs: Seq<ReviewView>,
    es: Seq<ReviewIndexEntryView>,
    ctx: ReviewContext,
) -> Option<ReviewView> {
    let id = match ctx.pr_number {
        Some(pr) => last_by_pr(es, ctx.repo@, pr),
        None => last_by_commit(es, ctx.repo@, ctx.commit_sha@),
    };
    match id {
        Some(i) => lookup(docs, i),
        None => None,
    }
}

/// The stored review that answers a request without calling the review service:
/// the prior review, when it is for the requested commit.
pub open spec fn reusable(
    docs: Seq<ReviewView>,
    es: Seq<ReviewIndexEntryView>,
    ctx: ReviewContext,
) -> Option<ReviewView> {
    match prior_review(docs, es, ctx) {
        Some(v) => if v.commit_sha == ctx.commit_sha@ {
            Some(v)
        } else {
            None
        },
        None => None,
    }
}

/// A new review for `ctx` holding the review service's findings, none decided;
/// decided at once when there are none.
pub open spec fn built_from(
    r: Review,
    ctx: ReviewContext,
    id: u128,
    created_at: i64,
    found: Seq<Suggestion>,
) -> bool {
    &&& r.id == id
    &&& r.created_at == created_at
    &&& r.pr_number == ctx.pr_number
    &&& r.repo == ctx.repo
    &&& r.branch == ctx.branch
    &&& r.commit_sha == ctx.commit_sha
    &&& r.status == if found.len() == 0 {
        ReviewStatus::Decided
    } else {
        ReviewStatus::Pending
    }
    &&& r.suggestions@.len() == found.len()
    &&& forall|i: int|
        0 <= i < found.len() ==> #[trigger] r.suggestions@[i] == fresh_item(found[i])
}

/// A finding with no second opinion and no verdict yet.
pub open spec fn fresh_item(s: Suggestion) -> SuggestionWithRecommendation {
    SuggestionWithRecommendation { suggestion: s, recommendation: None, decision: None }
}

/// A new review for `ctx` holding the review service's findings `found`.
pub fn build_review(context: &ReviewContext, id: u128, created_at: i64, found: &Vec<Suggestion>) -> (r: Review)
    ensures
        built_from(r, *context, id, created_at, found@),
{
    let mut review = Review::with_identity(context.duplicate(), id, created_at);
    if found.len() == 0 {
        review.status = ReviewStatus::Decided;
        return review;
    }
    let mut i: usize = 0;
    while i < found.len()
        invariant
            i <= found.len(),
            found@.len() > 0,
            review.id == id,
            review.created_at == created_at,
            review.pr_number == context.pr_number,
            review.repo == context.repo,
            review.branch == context.branch,
            review.commit_sha == context.commit_sha,
            review.status == ReviewStatus::Pending,
            review.suggestions@.len() == i,
            forall|k: int|
                0 <= k < i ==> #[trigger] review.suggestions@[k] == fresh_item(found@[k]),
        decreases found.len() - i,
    {
        review.suggestions.push(
            SuggestionWithRecommendation {
                suggestion: found[i].duplicate(),
                recommendation: None,
                decision: None,
            },
        );
        i = i + 1;
    }
    review
}

impl Orchestrator {
    pub fn new(ledger: JsonLedger) -> (r: Orchestrator)
        ensures
            r.ledger == ledger,
    {
        Orchestrator { ledger }
    }

    /// The ledger, for direct access.
    pub fn ledger(&self) -> (r: &JsonLedger)
        ensures
            *r == self.ledger,
    {
        &self.ledger
    }

    /// The stored review that answers `context` without calling the review service:
    /// the latest one for its pull request (or, without one, its commit), when
    /// it is for the requested commit.
    pub fn find_existing(&self, context: &ReviewContext) -> (r: Option<Review>)
        ensures
            match reusable(self.ledger.docs(), self.ledger.index@, *context) {
                Some(v) => r is Some && r->0@ == v,
                None => r is None,
            },
    {
        let existing = match context.pr_number {
            Some(pr) => self.ledger.load_by_pr(context.repo.as_str(), pr),
            None => self.ledger.load_by_commit(context.repo.as_str(), context.commit_sha.as_str()),
        };
        match existing {
            Some(rv) => {
                if rv.commit_sha == context.commit_sha {
                    Some(rv)
                } else {
                    None
                }
            },
            None => None,
        }
    }

    /// Builds the review for `context` from the review service's findings and saves it.
    pub fn record_review(
        &mut self,
        context: &ReviewContext,
        id: u128,
        created_at: i64,
        found: &Vec<Suggestion>,
    ) -> (r: Review)
        requires
            old(self).ledger.wf(),
        ensures
            built_from(r, *context, id, created_at, found@),
            final(self).ledger.wf(),
            final(self).ledger.docs() == saved(old(self).ledger.docs(), r@),
            final(self).ledger.index@ == recorded(old(self).ledger.index@, r@),
    {
        let review = build_review(context, id, created_at, found);
        self.ledger.save(&review);
        review
    }
}

/// Once a review for a request has been recorded, the same request finds it:
/// the review service is not called twice for one commit.
pub proof fn law_dedup(
    docs: Seq<ReviewView>,
    es: Seq<ReviewIndexEntryView>,
    ctx: ReviewContext,
    r: ReviewView,
)
    requires
        r.repo == ctx.repo@,
        r.commit_sha == ctx.commit_sha@,
        r.pr_number == ctx.pr_number,
    ensures
        reusable(saved(docs, r), recorded(es, r), ctx) == Some(r),
{
    crate::ledger::law_save_then_load(docs, es, r);
}

pub open spec fn severity_upper(s: Severity) -> Seq<char> {
    match s {
        Severity::Critical => "CRITICAL"@,
        Severity::High => "HIGH"@,
        Severity::Medium => "MEDIUM"@,
        Severity::Low => "LOW"@,
    }
}

pub open spec fn severity_mark(s: Severity) -> Seq<char> {
    match s {
        Severity::Critical => "🔴"@,
        Severity::High => "🟠"@,
        Severity::Medium => "🟡"@,
        Severity::Low => "🟢"@,
    }
}

pub open spec fn kind_title(t: SuggestionType) -> Seq<char> {
    match t {
        SuggestionType::Security => "Security"@,
        SuggestionType::Performance => "Performance"@,
        SuggestionType::Style => "Style"@,
        SuggestionType::Logic => "Logic"@,
        SuggestionType::Documentation => "Documentation"@,
    }
}

fn severity_upper_text(s: Severity) -> (r: &'static str)
    ensures
        r@ == severity_upper(s),
{
    match s {
        Severity::Critical => "CRITICAL",
        Severity::High => "HIGH",
        Severity::Medium => "MEDIUM",
        Severity::Low => "LOW",
    }
}

fn severity_mark_text(s: Severity) -> (r: &'static str)
    ensures
        r@ == severity_mark(s),
{
    match s {
        Severity::Critical => "🔴",
        Severity::High => "🟠",
        Severity::Medium => "🟡",
        Severity::Low => "🟢",
    }
}

fn kind_title_text(t: SuggestionType) -> (r: &'static str)
    ensures
        r@ == kind_title(t),
{
    match t {
        SuggestionType::Security => "Security",
        SuggestionType::Performance => "Performance",
        SuggestionType::Style => "Style",
        SuggestionType::Logic => "Logic",
        SuggestionType::Documentation => "Documentation",
    }
}

/// The section of the summary for one suggestion.
pub open spec fn detail_text(item: SuggestionWithRecommendation) -> Seq<char> {
    let s = item.suggestion;
    "#### "@ + severity_mark(s.severity) + " "@ + severity_upper(s.severity) + " `"@ + s.id@ + "` - "@
        + kind_title(s.suggestion_type) + "\n"@ + "**File:** `"@ + s.location.file@ + "` (lines "@
        + decimal(s.location.line_start as nat) + "-"@ + decimal(s.location.line_end as nat)
        + ")\n\n"@ + s.description@ + "\n\n"@ + match s.proposed_fix {
        Some(f) => "**Proposed fix:**\n```\n"@ + f@ + "\n```\n\n"@,
        None => Seq::<char>::empty(),
    } + "---\n\n"@
}

pub open spec fn details_text(items: Seq<SuggestionWithRecommendation>) -> Seq<char>
    decreases items.len(),
{
    if items.len() == 0 {
        seq![]
    } else {
        details_text(items.drop_last()) + detail_text(items.last())
    }
}

/// The table of counts per severity.
pub open spec fn counts_text(items: Seq<SuggestionWithRecommendation>) -> Seq<char> {
    "| Severity | Count |\n|----------|-------|\n| Critical | "@ + decimal(
        of_severity(items, Severity::Critical).len(),
    ) + " |\n| High | "@ + decimal(of_severity(items, Severity::High).len()) + " |\n| Medium | "@
        + decimal(of_severity(items, Severity::Medium).len()) + " |\n| Low | "@ + decimal(
        of_severity(items, Severity::Low).len(),
    ) + " |\n\n"@
}

/// The markdown summary of a review whose id reads `id_text`.
pub open spec fn summary_text(r: ReviewView, id_text: Seq<char>) -> Seq<char> {
    if r.suggestions.len() == 0 {
        "## AI Code Review Summary\n\n"@ + "No issues found.\n"@
    } else {
        "## AI Code Review Summary\n\n"@ + counts_text(r.suggestions) + "### Suggestions\n\n"@
            + details_text(r.suggestions) + "\n**Review ID:** `"@ + id_text + "`\n\n"@
            + "Use `review-cli decide` to accept or reject suggestions.\n"@
    }
}

/// The summary section for one suggestion.
pub fn render_detail(item: &SuggestionWithRecommendation) -> (r: String)
    ensures
        r@ == detail_text(*item),
{
    let s = &item.suggestion;
    let mut md = String::from_str("#### ");
    md.append(severity_mark_text(s.severity));
    md.append(" ");
    md.append(severity_upper_text(s.severity));
    md.append(" `");
    md.append(s.id.as_str());
    md.append("` - ");
    md.append(kind_title_text(s.suggestion_type));
    md.append("\n");
    md.append("**File:** `");
    md.append(s.location.file.as_str());
    md.append("` (lines ");
    md.append(u64_text(s.location.line_start as u64).as_str());
    md.append("-");
    md.append(u64_text(s.location.line_end as u64).as_str());
    md.append(")\n\n");
    md.append(s.description.as_str());
    md.append("\n\n");
    let ghost before_fix = md@;
    match &s.proposed_fix {
        Some(fix) => {
            md.append("**Proposed fix:**\n```\n");
            md.append(fix.as_str());
            md.append("\n```\n\n");
        },
        None => {},
    }
    md.append("---\n\n");
    assert(md@ =~= detail_text(*item));
    md
}

/// The markdown summary of `review`, its id reading `id_text`.
pub fn render_summary(review: &Review, id_text: &str) -> (r: String)
    ensures
        r@ == summary_text(review@, id_text@),
{
    let mut md = String::from_str("## AI Code Review Summary\n\n");
    if review.suggestions.len() == 0 {
        md.append("No issues found.\n");
        return md;
    }
    let critical = review.suggestions_by_severity(Severity::Critical).len();
    let high = review.suggestions_by_severity(Severity::High).len();
    let medium = review.suggestions_by_severity(Severity::Medium).len();
    let low = review.suggestions_by_severity(Severity::Low).len();
    md.append("| Severity | Count |\n|----------|-------|\n| Critical | ");
    md.append(u64_text(critical as u64).as_str());
    md.append(" |\n| High | ");
    md.append(u64_text(high as u64).as_str());
    md.append(" |\n| Medium | ");
    md.append(u64_text(medium as u64).as_str());
    md.append(" |\n| Low | ");
    md.append(u64_text(low as u64).as_str());
    md.append(" |\n\n");
    md.append("### Suggestions\n\n");
    let ghost head = md@;
    assert(head =~= "## AI Code Review Summary\n\n"@ + counts_text(review.suggestions@)
        + "### Suggestions\n\n"@);
    let mut i: usize = 0;
    while i < review.suggestions.len()
        invariant
            i <= review.suggestions@.len(),
            md@ == head + details_text(review.suggestions@.subrange(0, i as int)),
        decreases review.suggestions.len() - i,
    {
        assert(review.suggestions@.subrange(0, i + 1).drop_last() =~= review.suggestions@.subrange(0, i as int));
        let d = render_detail(&review.suggestions[i]);
        md.append(d.as_str());
        i = i + 1;
        assert(md@ =~= head + details_text(review.suggestions@.subrange(0, i as int)));
    }
    assert(review.suggestions@.subrange(0, i as int) =~= review.suggestions@);
    md.append("\n**Review ID:** `");
    md.append(id_text);
    md.append("`\n\n");
    md.append("Use `review-cli decide` to accept or reject suggestions.\n");
    assert(md@ =~= summary_text(review@, id_text@));
    md
}

/// The text `Display` gives a UUID holding `id`.
pub uninterp spec fn uuid_text_of(id: u128) -> Seq<char>;

/// Relies on `uuid::Uuid::from_u128` and its `Display`: the hyphenated
/// lower-case form, which depends on the 128 bits alone.
#[verifier::external_body]
fn uuid_text(id: u128) -> (r: String)
    ensures
        r@ == uuid_text_of(id),
{
    uuid::Uuid::from_u128(id).to_string()
}

/// The markdown summary of `review` for a pull-request comment: a table of
/// counts per severity, a section per suggestion, and the review's id.
pub fn generate_summary(review: &Review) -> (r: String)
    ensures
        r@ == summary_text(review@, uuid_text_of(review.id)),
{
    let id_text = uuid_text(review.id);
    render_summary(review, id_text.as_str())
}

} // verus!
