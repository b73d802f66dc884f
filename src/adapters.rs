//! What the pipeline does with the review service's and advisor's
//! payloads: find the JSON in a response, turn decoded records into the
//! library's types, and frame the prompts.
use vstd::prelude::*;
use vstd::string::*;

use crate::models::{
    CONFIDENCE_SCALE, Location, Recommendation, RecommendedAction, ReviewContext, ReviewError,
    Severity, Suggestion, SuggestionType,
};
use crate::suppressions::{Suppressions, active_of, prompt_text};
use crate::text::{
    chars_of, decimal, find_first_from, find_last, first_occ_from, last_occ, slice_of, string_of,
    trim, trimmed, u64_text,
};

verus! {

/// The JSON text inside a response: the body of the first fenced block
/// opened by three backticks and `json` (trimmed), else the span from the
/// first `{` to the last `}`, else the whole response.
pub open spec fn json_text(c: Seq<char>) -> Seq<char> {
    let fenced = match first_occ_from(c, "```json"@, 0) {
        Some(s) => match first_occ_from(c, "```"@, s + 7) {
            Some(e) => Some(trim(c.subrange(s + 7, e))),
            None => None,
        },
        None => None,
    };
    match fenced {
        Some(t) => t,
        None => match (first_occ_from(c, "{"@, 0), last_occ(c, "}"@)) {
            (Some(a), Some(b)) => if a <= b {
                c.subrange(a, b + 1)
            } else {
                c
            },
            _ => c,
        },
    }
}

/// Finds the JSON text in a collaborator's response, which may wrap it in
/// prose or a fenced block; the text is passed through when no JSON is found,
/// and the decoder then reports it.
pub fn extract_json(content: &str) -> (r: Result<String, ReviewError>)
    ensures
        r is Ok,
        r->Ok_0@ == json_text(content@),
{
    let c = chars_of(content);
    let fence = chars_of("```json");
    let close = chars_of("```");
    proof {
        reveal_strlit("```json");
        reveal_strlit("}");
    }
    assert(fence@.len() == 7);
    match find_first_from(&c, &fence, 0) {
        Some(s) => {
            let n = c.len();
            assert(s + 7 <= n);
            match find_first_from(&c, &close, s + 7) {
                Some(e) => {
                    let body = slice_of(&c, s + 7, e);
                    return Ok(string_of(&trimmed(&body)));
                },
                None => {},
            }
        },
        None => {},
    }
    let open = chars_of("{");
    let shut = chars_of("}");
    assert(shut@.len() == 1);
    match (find_first_from(&c, &open, 0), find_last(&c, &shut)) {
        (Some(a), Some(b)) => {
            let n = c.len();
            assert(b + 1 <= n);
            if a <= b {
                return Ok(string_of(&slice_of(&c, a, b + 1)));
            }
        },
        _ => {},
    }
    Ok(content.to_owned())
}

/// One finding as the review service's JSON spells it.
#[derive(Debug, Clone)]
pub struct RawSuggestion {
    pub id: String,
    pub suggestion_type: String,
    pub severity: String,
    pub location: RawLocation,
    pub description: String,
    pub proposed_fix: Option<String>,
}

#[derive(Debug, Clone)]
pub struct RawLocation {
    pub file: String,
    pub line_start: u32,
    pub line_end: u32,
}

/// One second opinion as the advisor's JSON spells it; the confidence is in
/// basis points, as read from the payload and not yet clamped.
#[derive(Debug, Clone)]
pub struct RawRecommendation {
    pub suggestion_id: String,
    pub action: String,
    pub confidence_bp: i64,
    pub rationale: String,
    pub modified_fix: Option<String>,
}

/// The finding type a name stands for; an unknown name reads as a logic finding.
pub open spec fn kind_of(s: Seq<char>) -> SuggestionType {
    if s == "security"@ {
        SuggestionType::Security
    } else if s == "performance"@ {
        SuggestionType::Performance
    } else if s == "style"@ {
        SuggestionType::Style
    } else if s == "logic"@ {
        SuggestionType::Logic
    } else if s == "documentation"@ {
        SuggestionType::Documentation
    } else {
        SuggestionType::Logic
    }
}

/// The severity a name stands for; an unknown name reads as low.
pub open spec fn severity_of(s: Seq<char>) -> Severity {
    if s == "critical"@ {
        Severity::Critical
    } else if s == "high"@ {
        Severity::High
    } else if s == "medium"@ {
        Severity::Medium
    } else {
        Severity::Low
    }
}

/// The action a name stands for; an unknown name reads as a rejection.
pub open spec fn action_of(s: Seq<char>) -> RecommendedAction {
    if s == "accept"@ {
        RecommendedAction::Accept
    } else if s == "reject"@ {
        RecommendedAction::Reject
    } else if s == "modify"@ {
        RecommendedAction::Modify
    } else {
        RecommendedAction::Reject
    }
}

/// A confidence clamped to `0..=CONFIDENCE_SCALE`.
pub open spec fn clamped(c: int) -> int {
    if c < 0 {
        0
    } else if c > CONFIDENCE_SCALE {
        CONFIDENCE_SCALE as int
    } else {
        c
    }
}

fn same_text(a: &String, b: &str) -> (r: bool)
    ensures
        r == (a@ == b@),
{
    *a == b.to_owned()
}

pub fn parse_suggestion_type(s: &String) -> (r: SuggestionType)
    ensures
        r == kind_of(s@),
{
    if same_text(s, "security") {
        SuggestionType::Security
    } else if same_text(s, "performance") {
        SuggestionType::Performance
    } else if same_text(s, "style") {
        SuggestionType::Style
    } else if same_text(s, "logic") {
        SuggestionType::Logic
    } else if same_text(s, "documentation") {
        SuggestionType::Documentation
    } else {
        SuggestionType::Logic
    }
}

pub fn parse_severity(s: &String) -> (r: Severity)
    ensures
        r == severity_of(s@),
{
    if same_text(s, "critical") {
        Severity::Critical
    } else if same_text(s, "high") {
        Severity::High
    } else if same_text(s, "medium") {
        Severity::Medium
    } else {
        Severity::Low
    }
}

/// The library's form of a decoded finding.
pub fn convert_suggestion(s: RawSuggestion) -> (r: Suggestion)
    ensures
        r.id == s.id,
        r.suggestion_type == kind_of(s.suggestion_type@),
        r.severity == severity_of(s.severity@),
        r.location.file == s.location.file,
        r.location.line_start == s.location.line_start,
        r.location.line_end == s.location.line_end,
        r.description == s.description,
        r.proposed_fix == s.proposed_fix,
{
    let suggestion_type = parse_suggestion_type(&s.suggestion_type);
    let severity = parse_severity(&s.severity);
    Suggestion {
        id: s.id,
        suggestion_type,
        severity,
        location: Location {
            file: s.location.file,
            line_start: s.location.line_start,
            line_end: s.location.line_end,
        },
        description: s.description,
        proposed_fix: s.proposed_fix,
    }
}

/// The library's form of a decoded second opinion, its confidence clamped.
pub fn convert_recommendation(r: RawRecommendation) -> (out: Recommendation)
    ensures
        out.suggestion_id == r.suggestion_id,
        out.action == action_of(r.action@),
        out.confidence_bp as int == clamped(r.confidence_bp as int),
        out.rationale == r.rationale,
        out.modified_fix == r.modified_fix,
{
    let action = if same_text(&r.action, "accept") {
        RecommendedAction::Accept
    } else if same_text(&r.action, "reject") {
        RecommendedAction::Reject
    } else if same_text(&r.action, "modify") {
        RecommendedAction::Modify
    } else {
        RecommendedAction::Reject
    };
    let confidence_bp: u32 = if r.confidence_bp < 0 {
        0
    } else if r.confidence_bp > CONFIDENCE_SCALE as i64 {
        CONFIDENCE_SCALE
    } else {
        r.confidence_bp as u32
    };
    Recommendation {
        suggestion_id: r.suggestion_id,
        action,
        confidence_bp,
        rationale: r.rationale,
        modified_fix: r.modified_fix,
    }
}

/// How a request is named in a prompt: its pull request, or the first seven
/// characters of its commit.
pub open spec fn target_text(ctx: ReviewContext) -> Seq<char> {
    match ctx.pr_number {
        Some(pr) => "PR #"@ + decimal(pr as nat),
        None => "commit "@ + if ctx.commit_sha@.len() <= 7 {
            ctx.commit_sha@
        } else {
            ctx.commit_sha@.subrange(0, 7)
        },
    }
}

/// The review service's user prompt: the diff and the directive listing
/// the active suppressions.
pub open spec fn review_prompt_text(diff: Seq<char>, ctx: ReviewContext, directive: Seq<char>) -> Seq<char> {
    "Review this diff from "@ + target_text(ctx) + " in "@ + ctx.repo@ + ":\n\n```diff\n"@ + diff
        + "\n```"@ + directive
}

pub fn target_of(context: &ReviewContext) -> (r: String)
    ensures
        r@ == target_text(*context),
{
    match context.pr_number {
        Some(pr) => {
            let mut t = String::from_str("PR #");
            t.append(u64_text(pr).as_str());
            t
        },
        None => {
            let sha = chars_of(context.commit_sha.as_str());
            let n: usize = if sha.len() <= 7 {
                sha.len()
            } else {
                7
            };
            let mut t = String::from_str("commit ");
            t.append(string_of(&slice_of(&sha, 0, n)).as_str());
            assert(sha@.len() <= 7 ==> sha@.subrange(0, n as int) =~= sha@);
            t
        },
    }
}

/// The review service's user prompt for `diff`, with the directive that
/// lists the suppressions active at `now`.
pub fn review_user_prompt(
    diff: &str,
    context: &ReviewContext,
    suppressions: Option<&Suppressions>,
    now: i64,
) -> (r: String)
    ensures
        r@ == review_prompt_text(
            diff@,
            *context,
            match suppressions {
                Some(s) => prompt_text(active_of(s.items@, now as int, None)),
                None => Seq::<char>::empty(),
            },
        ),
{
    let directive = match suppressions {
        Some(s) => s.to_prompt(now, None),
        None => String::new(),
    };
    let mut p = String::from_str("Review this diff from ");
    p.append(target_of(context).as_str());
    p.append(" in ");
    p.append(context.repo.as_str());
    p.append(":\n\n```diff\n");
    p.append(diff);
    p.append("\n```");
    p.append(directive.as_str());
    p
}

/// The advisor's user prompt around the findings (already encoded as JSON)
/// and the diff.
pub open spec fn advisor_prompt_text(suggestions_json: Seq<char>, diff: Seq<char>) -> Seq<char> {
    "Evaluate these code review suggestions:\n\n## Suggestions to evaluate:\n```json\n"@
        + suggestions_json + "\n```\n\n## Original diff for context:\n```diff\n"@ + diff
        + "\n```\n\nRespond with JSON in this exact format:\n```json\n{\n  \"recommendations\": [\n    {\n      \"suggestion_id\": \"S001\",\n      \"action\": \"accept|reject|modify\",\n      \"confidence\": 0.95,\n      \"rationale\": \"Explanation of your decision\",\n      \"modified_fix\": null or \"improved fix code if action is modify\"\n    }\n  ]\n}\n```"@
}

pub fn advisor_user_prompt(suggestions_json: &str, diff: &str) -> (r: String)
    ensures
        r@ == advisor_prompt_text(suggestions_json@, diff@),
{
    let mut p = String::from_str(
        "Evaluate these code review suggestions:\n\n## Suggestions to evaluate:\n```json\n",
    );
    p.append(suggestions_json);
    p.append("\n```\n\n## Original diff for context:\n```diff\n");
    p.append(diff);
    p.append(
        "\n```\n\nRespond with JSON in this exact format:\n```json\n{\n  \"recommendations\": [\n    {\n      \"suggestion_id\": \"S001\",\n      \"action\": \"accept|reject|modify\",\n      \"confidence\": 0.95,\n      \"rationale\": \"Explanation of your decision\",\n      \"modified_fix\": null or \"improved fix code if action is modify\"\n    }\n  ]\n}\n```",
    );
    p
}

} // verus!
