//! Auto-decision rules: a small condition language evaluated against
//! undecided suggestions.
//!
//! A condition is a conjunction of comparisons joined by ` AND `. Each
//! comparison is `field == literal` (text equality, the literal trimmed and
//! stripped of quotes) or `field > n`, `field >= n`, `field < n` (numeric).
//! Fields are `severity`, `type`, `age_days` and `file_path`; any other name
//! reads as empty text. A comparison that cannot be read evaluates to false, so
//! a malformed rule never decides anything.
//!
//! Numbers are decimal: an optional sign, then digits with an optional
//! fractional part (at most 18 digits on each side of the point). Any other
//! text is not a number and the comparison fails.
use vstd::prelude::*;
use vstd::string::*;

use crate::config::{AutoAction, AutoRule, Config};
use crate::models::{
    now_seconds,
    DecisionRecord, HumanDecision, Review, ReviewStatus, Severity, SuggestionItem, SuggestionType,
    all_decided,
};
use crate::text::{
    all_digits, chars_of, contains, contains_seq, decimal, digits_value, is_digit, slice_of,
    split_all, split_parts, strip_both, strip_char, trim, trimmed, u64_text, views, same_chars,
};

verus! {

/// Evaluates configured rules, in order, against undecided suggestions.
pub struct RulesEngine {
    pub rules: Vec<AutoRule>,
}

/// What a condition can read of one suggestion.
pub struct RuleContext {
    pub severity: String,
    pub suggestion_type: String,
    pub age_days: i64,
    pub file_path: String,
}

/// The same, as mathematical values.
pub struct RuleFacts {
    pub severity: Seq<char>,
    pub suggestion_type: Seq<char>,
    pub age_days: int,
    pub file_path: Seq<char>,
}

impl View for RuleContext {
    type V = RuleFacts;

    open spec fn view(&self) -> RuleFacts {
        RuleFacts {
            severity: self.severity@,
            suggestion_type: self.suggestion_type@,
            age_days: self.age_days as int,
            file_path: self.file_path@,
        }
    }
}

/// Comparison operators of the condition language.
pub enum Comparison {
    Greater,
    GreaterOrEqual,
    Less,
}

pub open spec fn severity_name(s: Severity) -> Seq<char> {
    match s {
        Severity::Critical => "critical"@,
        Severity::High => "high"@,
        Severity::Medium => "medium"@,
        Severity::Low => "low"@,
    }
}

pub open spec fn kind_name(t: SuggestionType) -> Seq<char> {
    match t {
        SuggestionType::Security => "security"@,
        SuggestionType::Performance => "performance"@,
        SuggestionType::Style => "style"@,
        SuggestionType::Logic => "logic"@,
        SuggestionType::Documentation => "documentation"@,
    }
}

/// Whole days from `created_at` to `now` (seconds), truncated toward zero.
pub open spec fn age_days_between(created_at: int, now: int) -> int {
    let d = now - created_at;
    if d >= 0 {
        d / 86400
    } else {
        -((-d) / 86400)
    }
}

/// What the rules read of `item` in a review created at `created_at`, at time `now`.
pub open spec fn facts_of(item: SuggestionItem, created_at: int, now: int) -> RuleFacts {
    RuleFacts {
        severity: severity_name(item.suggestion.severity),
        suggestion_type: kind_name(item.suggestion.suggestion_type),
        age_days: age_days_between(created_at, now),
        file_path: item.suggestion.location.file@,
    }
}

/// Decimal text of an integer, with a leading `-` when negative.
pub open spec fn int_text(i: int) -> Seq<char> {
    if i < 0 {
        seq!['-'] + decimal((-i) as nat)
    } else {
        decimal(i as nat)
    }
}

/// The text a field name reads in a condition.
pub open spec fn field_value(field: Seq<char>, f: RuleFacts) -> Seq<char> {
    if field == "severity"@ {
        f.severity
    } else if field == "type"@ {
        f.suggestion_type
    } else if field == "age_days"@ {
        int_text(f.age_days)
    } else if field == "file_path"@ {
        f.file_path
    } else {
        seq![]
    }
}

/// A literal with surrounding single and then double quotes removed.
pub open spec fn unquote(s: Seq<char>) -> Seq<char> {
    strip_both(strip_both(s, '\''), '"')
}

/// `n` zero digits.
pub open spec fn zeros(n: nat) -> Seq<char> {
    Seq::new(n, |i: int| '0')
}

/// Whether `b` splits at position `d` into digits, a point, and digits.
pub open spec fn is_point_at(b: Seq<char>, d: int) -> bool {
    &&& 0 <= d < b.len()
    &&& b[d] == '.'
    &&& all_digits(b.subrange(0, d))
    &&& all_digits(b.subrange(d + 1, b.len() as int))
}

/// The integral and fractional digits of an unsigned decimal.
pub open spec fn decimal_parts(b: Seq<char>) -> Option<(Seq<char>, Seq<char>)> {
    if all_digits(b) {
        Some((b, seq![]))
    } else if exists|d: int| is_point_at(b, d) {
        let d = choose|d: int| is_point_at(b, d);
        Some((b.subrange(0, d), b.subrange(d + 1, b.len() as int)))
    } else {
        None
    }
}

/// `s` without its sign character.
pub open spec fn unsigned_text(s: Seq<char>) -> Seq<char> {
    if s.len() > 0 && (s[0] == '-' || s[0] == '+') {
        s.drop_first()
    } else {
        s
    }
}

/// The value of a decimal number, scaled by 10^18.
pub open spec fn num_of(s: Seq<char>) -> Option<int> {
    let neg = s.len() > 0 && s[0] == '-';
    match decimal_parts(unsigned_text(s)) {
        Some(parts) => {
            let ip = parts.0;
            let fp = parts.1;
            if ip.len() + fp.len() >= 1 && ip.len() <= 18 && fp.len() <= 18 {
                let m = digits_value(ip + fp + zeros((18 - fp.len()) as nat)) as int;
                Some(
                    if neg {
                        -m
                    } else {
                        m
                    },
                )
            } else {
                None
            }
        },
        None => None,
    }
}

pub open spec fn compares(v: int, t: int, op: Comparison) -> bool {
    match op {
        Comparison::Greater => v > t,
        Comparison::GreaterOrEqual => v >= t,
        Comparison::Less => v < t,
    }
}

/// A numeric comparison `field <sep> literal`.
pub open spec fn numeric_holds(e: Seq<char>, sep: Seq<char>, f: RuleFacts, op: Comparison) -> bool {
    let p = split_all(e, sep);
    p.len() == 2 && match (num_of(trim(p[1])), num_of(field_value(trim(p[0]), f))) {
        (Some(t), Some(v)) => compares(v, t, op),
        _ => false,
    }
}

/// Whether one comparison `e` holds.
pub open spec fn expr_holds(e: Seq<char>, f: RuleFacts) -> bool {
    if contains_seq(e, "=="@) {
        let p = split_all(e, "=="@);
        p.len() == 2 && field_value(trim(p[0]), f) == unquote(trim(p[1]))
    } else if contains_seq(e, ">"@) && !contains_seq(e, ">="@) {
        numeric_holds(e, ">"@, f, Comparison::Greater)
    } else if contains_seq(e, ">="@) {
        numeric_holds(e, ">="@, f, Comparison::GreaterOrEqual)
    } else if contains_seq(e, "<"@) && !contains_seq(e, "<="@) {
        numeric_holds(e, "<"@, f, Comparison::Less)
    } else {
        false
    }
}

/// Whether every comparison of the conjunction `cond` holds.
pub open spec fn condition_holds(cond: Seq<char>, f: RuleFacts) -> bool {
    let parts = split_all(cond, " AND "@);
    forall|i: int| 0 <= i < parts.len() ==> expr_holds(trim(#[trigger] parts[i]), f)
}

/// Index of the first rule whose condition holds.
pub open spec fn first_match(rules: Seq<AutoRule>, f: RuleFacts) -> Option<int>
    decreases rules.len(),
{
    if rules.len() == 0 {
        None
    } else {
        match first_match(rules.drop_last(), f) {
            Some(i) => Some(i),
            None => if condition_holds(rules.last().condition@, f) {
                Some(rules.len() - 1)
            } else {
                None
            },
        }
    }
}

pub open spec fn decision_of(a: AutoAction) -> HumanDecision {
    match a {
        AutoAction::AutoAccept => HumanDecision::Accepted,
        AutoAction::AutoDismiss => HumanDecision::Rejected,
        AutoAction::AutoDefer => HumanDecision::Deferred,
    }
}

/// The record an automatic verdict carries.
pub open spec fn is_auto_record(d: DecisionRecord, id: Seq<char>, rule: AutoRule, now: int) -> bool {
    &&& d.suggestion_id@ == id
    &&& d.decision == decision_of(rule.action)
    &&& d.reason is Some
    &&& d.reason->0@ == "[Auto] "@ + rule.reason@
    &&& d.decided_by@ == "auto-rules"@
    &&& d.decided_at == now
}

/// How applying the rules leaves one item.
pub open spec fn applied_item(
    before: SuggestionItem,
    after: SuggestionItem,
    rules: Seq<AutoRule>,
    created_at: int,
    now: int,
) -> bool {
    if before.decision is Some {
        after == before
    } else {
        match first_match(rules, facts_of(before, created_at, now)) {
            Some(j) => {
                &&& after.suggestion == before.suggestion
                &&& after.recommendation == before.recommendation
                &&& after.decision is Some
                &&& is_auto_record(after.decision->0, before.suggestion.id@, rules[j], now)
            },
            None => after == before,
        }
    }
}

/// How applying the rules leaves every item.
pub open spec fn all_applied(
    before: Seq<SuggestionItem>,
    after: Seq<SuggestionItem>,
    rules: Seq<AutoRule>,
    created_at: int,
    now: int,
) -> bool {
    &&& after.len() == before.len()
    &&& forall|k: int|
        0 <= k < before.len() ==> applied_item(#[trigger] before[k], after[k], rules, created_at, now)
}

/// What applying the rules at time `now` makes of a review, `count` items being decided.
pub open spec fn applied_review(before: Review, after: Review, rules: Seq<AutoRule>, now: int, count: int) -> bool {
    &&& all_applied(before.suggestions@, after.suggestions@, rules, before.created_at as int, now)
    &&& count == auto_count(rules, before.suggestions@, before.created_at as int, now)
    &&& after.status == if count > 0 && all_decided(after.suggestions@) {
        ReviewStatus::Decided
    } else {
        before.status
    }
    &&& after.id == before.id
    &&& after.repo == before.repo
    &&& after.commit_sha == before.commit_sha
    &&& after.created_at == before.created_at
}

/// How many items the rules decide.
pub open spec fn auto_count(rules: Seq<AutoRule>, items: Seq<SuggestionItem>, created_at: int, now: int) -> nat
    decreases items.len(),
{
    if items.len() == 0 {
        0
    } else {
        let last = items.last();
        auto_count(rules, items.drop_last(), created_at, now) + if last.decision is None
            && first_match(rules, facts_of(last, created_at, now)) is Some {
            1nat
        } else {
            0nat
        }
    }
}

pub fn severity_to_string(s: Severity) -> (r: String)
    ensures
        r@ == severity_name(s),
{
    match s {
        Severity::Critical => String::from_str("critical"),
        Severity::High => String::from_str("high"),
        Severity::Medium => String::from_str("medium"),
        Severity::Low => String::from_str("low"),
    }
}

pub fn type_to_string(t: SuggestionType) -> (r: String)
    ensures
        r@ == kind_name(t),
{
    match t {
        SuggestionType::Security => String::from_str("security"),
        SuggestionType::Performance => String::from_str("performance"),
        SuggestionType::Style => String::from_str("style"),
        SuggestionType::Logic => String::from_str("logic"),
        SuggestionType::Documentation => String::from_str("documentation"),
    }
}

/// Whole days from `created_at` to `now`, truncated toward zero.
pub fn age_days(created_at: i64, now: i64) -> (r: i64)
    ensures
        r as int == age_days_between(created_at as int, now as int),
{
    let d: i128 = now as i128 - created_at as i128;
    if d >= 0 {
        (d / 86400) as i64
    } else {
        let q: i128 = (-d) / 86400;
        (-q) as i64
    }
}

/// Decimal text of `n`.
pub fn i64_text(n: i64) -> (r: Vec<char>)
    ensures
        r@ == int_text(n as int),
{
    if n < 0 {
        let m: u64 = (-(n as i128)) as u64;
        let digits = u64_text(m);
        let mut out: Vec<char> = Vec::new();
        out.push('-');
        let d = chars_of(digits.as_str());
        let mut i: usize = 0;
        while i < d.len()
            invariant
                i <= d.len(),
                out@ == seq!['-'] + d@.subrange(0, i as int),
            decreases d.len() - i,
        {
            out.push(d[i]);
            i = i + 1;
            assert(out@ =~= seq!['-'] + d@.subrange(0, i as int));
        }
        assert(d@.subrange(0, d.len() as int) =~= d@);
        out
    } else {
        let digits = u64_text(n as u64);
        chars_of(digits.as_str())
    }
}

impl RuleContext {
    /// What the rules read of `item` in a review created at `created_at`, at time `now`.
    pub fn from_suggestion(item: &SuggestionItem, created_at: i64, now: i64) -> (r: RuleContext)
        ensures
            r@ == facts_of(*item, created_at as int, now as int),
    {
        RuleContext {
            severity: severity_to_string(item.suggestion.severity),
            suggestion_type: type_to_string(item.suggestion.suggestion_type),
            age_days: age_days(created_at, now),
            file_path: item.suggestion.location.file.clone(),
        }
    }
}

pub open spec fn pow10(n: nat) -> nat
    decreases n,
{
    if n == 0 {
        1
    } else {
        10 * pow10((n - 1) as nat)
    }
}

proof fn lemma_digits_bound(s: Seq<char>)
    requires
        all_digits(s),
    ensures
        digits_value(s) < pow10(s.len()),
    decreases s.len(),
{
    if s.len() > 0 {
        let t = s.drop_last();
        assert(all_digits(t)) by {
            assert forall|i: int| 0 <= i < t.len() implies is_digit(#[trigger] t[i]) by {
                assert(t[i] == s[i]);
            }
        }
        lemma_digits_bound(t);
        assert(is_digit(s[s.len() - 1]));
        let a = digits_value(t);
        let p = pow10(t.len());
        let d = (s.last() as int) - ('0' as int);
        assert(0 <= d <= 9);
        assert(a * 10 + d < p * 10) by (nonlinear_arith)
            requires
                a < p,
                0 <= d <= 9,
        ;
    }
}

proof fn lemma_pow10_mono(a: nat, b: nat)
    requires
        a <= b,
    ensures
        pow10(a) <= pow10(b),
    decreases b,
{
    if a < b {
        lemma_pow10_mono(a, (b - 1) as nat);
    }
}

proof fn lemma_fits_i128(w: Seq<char>)
    requires
        all_digits(w),
        w.len() <= 36,
    ensures
        digits_value(w) < 1000000000000000000000000000000000000,
{
    reveal_with_fuel(pow10, 37);
    lemma_digits_bound(w);
    lemma_pow10_mono(w.len(), 36);
}

/// The value of a run of at most 36 decimal digits.
fn digits_u128(w: &Vec<char>) -> (r: u128)
    requires
        all_digits(w@),
        w@.len() <= 36,
    ensures
        r as nat == digits_value(w@),
{
    proof {
        reveal_with_fuel(pow10, 37);
        lemma_pow10_mono(w@.len(), 36);
    }
    let mut acc: u128 = 0;
    let mut i: usize = 0;
    while i < w.len()
        invariant
            i <= w.len() <= 36,
            all_digits(w@),
            pow10(w@.len()) <= 1000000000000000000000000000000000000,
            acc as nat == digits_value(w@.subrange(0, i as int)),
        decreases w.len() - i,
    {
        let ghost pre = w@.subrange(0, i + 1);
        assert(pre.drop_last() =~= w@.subrange(0, i as int));
        assert(all_digits(pre)) by {
            assert forall|k: int| 0 <= k < pre.len() implies is_digit(#[trigger] pre[k]) by {
                assert(pre[k] == w@[k]);
            }
        }
        proof {
            lemma_digits_bound(pre);
            lemma_pow10_mono(pre.len(), w@.len());
        }
        assert(is_digit(w@[i as int]));
        let d: u128 = (w[i] as u32 - '0' as u32) as u128;
        acc = acc * 10 + d;
        i = i + 1;
    }
    assert(w@.subrange(0, i as int) =~= w@);
    acc
}

/// Whether `v[a..b]` is all decimal digits.
fn digits_only(v: &Vec<char>, a: usize, b: usize) -> (r: bool)
    requires
        a <= b <= v.len(),
    ensures
        r == all_digits(v@.subrange(a as int, b as int)),
{
    let mut i: usize = a;
    while i < b
        invariant
            a <= i <= b <= v.len(),
            forall|k: int| a <= k < i ==> is_digit(#[trigger] v@[k]),
        decreases b - i,
    {
        if !(v[i] >= '0' && v[i] <= '9') {
            assert(v@.subrange(a as int, b as int)[i - a] == v@[i as int]);
            return false;
        }
        i = i + 1;
    }
    assert forall|k: int| 0 <= k < b - a implies is_digit(#[trigger] v@.subrange(a as int, b as int)[k]) by {
        assert(v@.subrange(a as int, b as int)[k] == v@[a + k]);
    }
    true
}

fn concat(a: &Vec<char>, b: &Vec<char>) -> (r: Vec<char>)
    ensures
        r@ == a@ + b@,
{
    let mut out = slice_of(a, 0, a.len());
    assert(a@.subrange(0, a.len() as int) =~= a@);
    let mut i: usize = 0;
    while i < b.len()
        invariant
            i <= b.len(),
            out@ == a@ + b@.subrange(0, i as int),
        decreases b.len() - i,
    {
        out.push(b[i]);
        i = i + 1;
        assert(out@ =~= a@ + b@.subrange(0, i as int));
    }
    assert(b@.subrange(0, b.len() as int) =~= b@);
    out
}

/// The integral and fractional digits of an unsigned decimal.
fn split_point(body: &Vec<char>) -> (r: Option<(Vec<char>, Vec<char>)>)
    ensures
        match decimal_parts(body@) {
            Some(p) => r is Some && (r->0).0@ == p.0 && (r->0).1@ == p.1,
            None => r is None,
        },
{
    let mut i: usize = 0;
    while i < body.len() && body[i] != '.'
        invariant
            i <= body.len(),
            forall|k: int| 0 <= k < i ==> is_digit(#[trigger] body@[k]),
        decreases body.len() - i,
    {
        if !(body[i] >= '0' && body[i] <= '9') {
            proof {
                assert(!all_digits(body@));
                assert forall|d: int| !is_point_at(body@, d) by {
                    if 0 <= d < body@.len() && body@[d] == '.' {
                        if d > i {
                            assert(body@.subrange(0, d)[i as int] == body@[i as int]);
                        } else {
                            assert(is_digit(body@[d]));
                        }
                    }
                }
                assert(decimal_parts(body@) is None);
            }
            return None;
        }
        i = i + 1;
    }
    let ip = slice_of(&body, 0, i);
    let fp: Vec<char>;
    if i == body.len() {
        assert(body@ =~= body@.subrange(0, i as int));
        assert(all_digits(body@));
        fp = Vec::new();
        assert(decimal_parts(body@) == Some((body@, Seq::<char>::empty())));
        assert(fp@ =~= Seq::<char>::empty());
    } else {
        if !digits_only(&body, i + 1, body.len()) {
            proof {
                assert(!is_digit(body@[i as int]));
                assert(!all_digits(body@));
                assert forall|d: int| !is_point_at(body@, d) by {
                    if 0 <= d < body@.len() && body@[d] == '.' {
                        if d > i {
                            assert(body@.subrange(0, d)[i as int] == body@[i as int]);
                        } else if d < i {
                            assert(is_digit(body@[d]));
                        }
                    }
                }
            }
            return None;
        }
        fp = slice_of(&body, i + 1, body.len());
        proof {
            assert(all_digits(body@.subrange(0, i as int))) by {
                assert forall|k: int| 0 <= k < i implies is_digit(#[trigger] body@.subrange(0, i as int)[k]) by {
                    assert(body@.subrange(0, i as int)[k] == body@[k]);
                }
            }
            assert(is_point_at(body@, i as int));
            assert(!is_digit(body@[i as int]));
            assert(!all_digits(body@));
            let d = choose|d: int| is_point_at(body@, d);
            if d > i {
                assert(body@.subrange(0, d)[i as int] == body@[i as int]);
            } else if d < i {
                assert(body@.subrange(i + 1, body@.len() as int)[d] == body@[d]);
                assert(is_digit(body@[d]));
            }
            assert(d == i);
        }
    }
    Some((ip, fp))
}

/// Parses a decimal number, giving its value scaled by 10^18.
pub fn parse_number(v: &Vec<char>) -> (r: Option<i128>)
    ensures
        match num_of(v@) {
            Some(x) => r is Some && r->0 as int == x,
            None => r is None,
        },
{
    let n = v.len();
    let neg = n > 0 && v[0] == '-';
    let start: usize = if n > 0 && (v[0] == '-' || v[0] == '+') {
        1
    } else {
        0
    };
    let body = slice_of(v, start, n);
    assert(body@ =~= unsigned_text(v@));
    let (ip, fp) = match split_point(&body) {
        Some(p) => p,
        None => return None,
    };
    if ip.len() + fp.len() < 1 || ip.len() > 18 || fp.len() > 18 {
        return None;
    }
    let mut pad: Vec<char> = Vec::new();
    let mut k: usize = fp.len();
    while k < 18
        invariant
            fp.len() <= k <= 18,
            pad@ == zeros((k - fp.len()) as nat),
        decreases 18 - k,
    {
        pad.push('0');
        k = k + 1;
        assert(pad@ =~= zeros((k - fp.len()) as nat));
    }
    let ipfp = concat(&ip, &fp);
    let w = concat(&ipfp, &pad);
    proof {
        let parts = decimal_parts(unsigned_text(v@))->0;
        assert(all_digits(parts.0) && all_digits(parts.1)) by {
            if !all_digits(body@) {
                let d = choose|d: int| is_point_at(body@, d);
                assert(parts.0 == body@.subrange(0, d));
            }
        }
        assert(all_digits(w@)) by {
            assert forall|j: int| 0 <= j < w@.len() implies is_digit(#[trigger] w@[j]) by {
                if j < ip@.len() {
                    assert(w@[j] == ip@[j]);
                } else if j < ip@.len() + fp@.len() {
                    assert(w@[j] == fp@[j - ip@.len()]);
                } else {
                    assert(w@[j] == pad@[j - ip@.len() - fp@.len()]);
                }
            }
        }
    }
    let m = digits_u128(&w);
    proof {
        lemma_fits_i128(w@);
    }
    if neg {
        Some(-(m as i128))
    } else {
        Some(m as i128)
    }
}

proof fn lemma_first_match_prefix(rules: Seq<AutoRule>, f: RuleFacts, n: int)
    requires
        0 <= n <= rules.len(),
        first_match(rules.subrange(0, n), f) is Some,
    ensures
        first_match(rules, f) == first_match(rules.subrange(0, n), f),
    decreases rules.len() - n,
{
    if n < rules.len() {
        assert(rules.subrange(0, n + 1).drop_last() =~= rules.subrange(0, n));
        lemma_first_match_prefix(rules, f, n + 1);
    } else {
        assert(rules.subrange(0, n) =~= rules);
    }
}

impl RulesEngine {
    pub fn new(rules: Vec<AutoRule>) -> (r: RulesEngine)
        ensures
            r.rules@ == rules@,
    {
        RulesEngine { rules }
    }

    /// An engine with the rules of `config`, in their configured order.
    pub fn from_config(config: &Config) -> (r: RulesEngine)
        ensures
            r.rules@ == config.auto_rules@,
    {
        let mut rules: Vec<AutoRule> = Vec::new();
        let mut i: usize = 0;
        while i < config.auto_rules.len()
            invariant
                i <= config.auto_rules@.len(),
                rules@ == config.auto_rules@.subrange(0, i as int),
            decreases config.auto_rules.len() - i,
        {
            rules.push(config.auto_rules[i].duplicate());
            i = i + 1;
            assert(rules@ =~= config.auto_rules@.subrange(0, i as int));
        }
        assert(config.auto_rules@.subrange(0, i as int) =~= config.auto_rules@);
        RulesEngine::new(rules)
    }

    /// The text that `field` reads.
    fn get_field_value(&self, field: &Vec<char>, ctx: &RuleContext) -> (r: Vec<char>)
        ensures
            r@ == field_value(field@, ctx@),
    {
        if same_chars(field, &chars_of("severity")) {
            chars_of(ctx.severity.as_str())
        } else if same_chars(field, &chars_of("type")) {
            chars_of(ctx.suggestion_type.as_str())
        } else if same_chars(field, &chars_of("age_days")) {
            i64_text(ctx.age_days)
        } else if same_chars(field, &chars_of("file_path")) {
            chars_of(ctx.file_path.as_str())
        } else {
            Vec::new()
        }
    }

    /// A numeric comparison `field <sep> literal`.
    fn numeric(&self, e: &Vec<char>, sep: &Vec<char>, ctx: &RuleContext, op: Comparison) -> (r: bool)
        ensures
            r == numeric_holds(e@, sep@, ctx@, op),
    {
        let parts = split_parts(e, sep);
        if parts.len() != 2 {
            return false;
        }
        assert(parts@[0]@ == views(parts@)[0] && parts@[1]@ == views(parts@)[1]);
        let threshold = match parse_number(&trimmed(&parts[1])) {
            Some(t) => t,
            None => return false,
        };
        let field = trimmed(&parts[0]);
        let value = match parse_number(&self.get_field_value(&field, ctx)) {
            Some(v) => v,
            None => return false,
        };
        match op {
            Comparison::Greater => value > threshold,
            Comparison::GreaterOrEqual => value >= threshold,
            Comparison::Less => value < threshold,
        }
    }

    /// Whether the comparison `expr` holds.
    pub fn evaluate_expression(&self, expr: &Vec<char>, ctx: &RuleContext) -> (r: bool)
        ensures
            r == expr_holds(trim(expr@), ctx@),
    {
        let e = trimmed(expr);
        let eq = chars_of("==");
        let gt = chars_of(">");
        let ge = chars_of(">=");
        let lt = chars_of("<");
        let le = chars_of("<=");
        if contains(&e, &eq) {
            let parts = split_parts(&e, &eq);
            if parts.len() != 2 {
                return false;
            }
            assert(parts@[0]@ == views(parts@)[0] && parts@[1]@ == views(parts@)[1]);
            let field = trimmed(&parts[0]);
            let value = strip_char(&strip_char(&trimmed(&parts[1]), '\''), '"');
            let fv = self.get_field_value(&field, ctx);
            return same_chars(&fv, &value);
        }
        if contains(&e, &gt) && !contains(&e, &ge) {
            return self.numeric(&e, &gt, ctx, Comparison::Greater);
        }
        if contains(&e, &ge) {
            return self.numeric(&e, &ge, ctx, Comparison::GreaterOrEqual);
        }
        if contains(&e, &lt) && !contains(&e, &le) {
            return self.numeric(&e, &lt, ctx, Comparison::Less);
        }
        false
    }

    /// Whether every comparison of the conjunction `condition` holds.
    pub fn matches_condition(&self, condition: &str, ctx: &RuleContext) -> (r: bool)
        ensures
            r == condition_holds(condition@, ctx@),
    {
        let c = chars_of(condition);
        let parts = split_parts(&c, &chars_of(" AND "));
        let ghost ps = split_all(condition@, " AND "@);
        let mut i: usize = 0;
        while i < parts.len()
            invariant
                i <= parts.len(),
                views(parts@) == ps,
                ps == split_all(condition@, " AND "@),
                forall|k: int| 0 <= k < i ==> expr_holds(trim(#[trigger] ps[k]), ctx@),
            decreases parts.len() - i,
        {
            assert(parts@[i as int]@ == ps[i as int]);
            if !self.evaluate_expression(&parts[i], ctx) {
                return false;
            }
            i = i + 1;
        }
        true
    }

    /// The action and reason of the first rule that matches `item`, in a
    /// review created at `created_at`, at time `now`.
    pub fn evaluate_rules_at(&self, item: &SuggestionItem, created_at: i64, now: i64) -> (r: Option<(AutoAction, String)>)
        ensures
            match first_match(self.rules@, facts_of(*item, created_at as int, now as int)) {
                Some(j) => r is Some && (r->0).0 == self.rules@[j].action && (r->0).1@ == self.rules@[j].reason@,
                None => r is None,
            },
    {
        let ctx = RuleContext::from_suggestion(item, created_at, now);
        let ghost f = facts_of(*item, created_at as int, now as int);
        let mut i: usize = 0;
        while i < self.rules.len()
            invariant
                i <= self.rules.len(),
                ctx@ == f,
                f == facts_of(*item, created_at as int, now as int),
                first_match(self.rules@.subrange(0, i as int), f) is None,
            decreases self.rules.len() - i,
        {
            assert(self.rules@.subrange(0, i + 1).drop_last() =~= self.rules@.subrange(0, i as int));
            if self.matches_condition(self.rules[i].condition.as_str(), &ctx) {
                proof {
                    let pre = self.rules@.subrange(0, i + 1);
                    assert(pre.last() == self.rules@[i as int]);
                    assert(first_match(pre, f) == Some(i as int));
                    lemma_first_match_prefix(self.rules@, f, i + 1);
                }
                let action = self.rules[i].action;
                let reason = self.rules[i].reason.clone();
                return Some((action, reason));
            }
            i = i + 1;
        }
        assert(self.rules@.subrange(0, i as int) =~= self.rules@);
        None
    }

    /// The record of an automatic verdict from a rule with `action` and `reason`.
    fn auto_record(item: &SuggestionItem, action: AutoAction, reason: &String, now: i64) -> (r: DecisionRecord)
        ensures
            r.suggestion_id@ == item.suggestion.id@,
            r.decision == decision_of(action),
            r.reason is Some,
            r.reason->0@ == "[Auto] "@ + reason@,
            r.decided_by@ == "auto-rules"@,
            r.decided_at == now,
    {
        let mut text = String::from_str("[Auto] ");
        text.append(reason.as_str());
        DecisionRecord {
            suggestion_id: item.suggestion.id.clone(),
            decision: match action {
                AutoAction::AutoAccept => HumanDecision::Accepted,
                AutoAction::AutoDismiss => HumanDecision::Rejected,
                AutoAction::AutoDefer => HumanDecision::Deferred,
            },
            reason: Some(text),
            decided_by: String::from_str("auto-rules"),
            decided_at: now,
        }
    }

    /// Decides every undecided suggestion of `review` that a rule matches, at
    /// time `now`, through the same path as a human verdict; returns how many
    /// were decided. Decided suggestions are left alone, so applying twice
    /// decides nothing more.
    pub fn apply_at(&self, review: &mut Review, now: i64) -> (r: usize)
        ensures
            final(review).suggestions@.len() == old(review).suggestions@.len(),
            forall|k: int|
                0 <= k < old(review).suggestions@.len() ==> applied_item(
                    #[trigger] old(review).suggestions@[k],
                    final(review).suggestions@[k],
                    self.rules@,
                    old(review).created_at as int,
                    now as int,
                ),
            r == auto_count(self.rules@, old(review).suggestions@, old(review).created_at as int, now as int),
            final(review).status == if r > 0 && all_decided(final(review).suggestions@) {
                ReviewStatus::Decided
            } else {
                old(review).status
            },
            final(review).id == old(review).id,
            final(review).pr_number == old(review).pr_number,
            final(review).repo == old(review).repo,
            final(review).branch == old(review).branch,
            final(review).commit_sha == old(review).commit_sha,
            final(review).created_at == old(review).created_at,
    {
        let ghost before = review.suggestions@;
        let ghost status0 = review.status;
        let created_at = review.created_at;
        let mut count: usize = 0;
        let mut i: usize = 0;
        while i < review.suggestions.len()
            invariant
                i <= review.suggestions@.len() == before.len(),
                created_at == old(review).created_at,
                before == old(review).suggestions@,
                status0 == old(review).status,
                forall|k: int| 0 <= k < i ==> applied_item(
                    #[trigger] before[k],
                    review.suggestions@[k],
                    self.rules@,
                    created_at as int,
                    now as int,
                ),
                forall|k: int| i <= k < before.len() ==> #[trigger] review.suggestions@[k] == before[k],
                count as nat == auto_count(self.rules@, before.subrange(0, i as int), created_at as int, now as int),
                count <= i,
                review.status == if count > 0 && all_decided(review.suggestions@) {
                    ReviewStatus::Decided
                } else {
                    status0
                },
                review.id == old(review).id,
                review.pr_number == old(review).pr_number,
                review.repo == old(review).repo,
                review.branch == old(review).branch,
                review.commit_sha == old(review).commit_sha,
                review.created_at == old(review).created_at,
            decreases before.len() - i,
        {
            assert(before.subrange(0, i + 1).drop_last() =~= before.subrange(0, i as int));
            assert(before.subrange(0, i + 1).last() == before[i as int]);
            if review.suggestions[i].decision.is_none() {
                match self.evaluate_rules_at(&review.suggestions[i], created_at, now) {
                    Some((action, reason)) => {
                        let record = Self::auto_record(&review.suggestions[i], action, &reason, now);
                        let ghost items0 = review.suggestions@;
                        assert(!all_decided(items0)) by {
                            assert(items0[i as int].decision is None);
                        }
                        review.decide_at(i, record);
                        assert(review.suggestions@[i as int].suggestion == before[i as int].suggestion);
                        count = count + 1;
                    },
                    None => {},
                }
            }
            i = i + 1;
        }
        assert(before.subrange(0, i as int) =~= before);
        count
    }

    /// The same, at the current time.
    pub fn apply(&self, review: &mut Review) -> (r: usize)
        ensures
            exists|now: int| #[trigger] applied_review(*old(review), *final(review), self.rules@, now, r as int),
    {
        let now = now_seconds();
        let r = self.apply_at(review, now);
        assert(applied_review(*old(review), *review, self.rules@, now as int, r as int));
        r
    }

    /// The same, at the current time.
    pub fn evaluate_rules(&self, item: &SuggestionItem, created_at: i64) -> (r: Option<(AutoAction, String)>)
        ensures
            exists|now: int|
                match #[trigger] first_match(self.rules@, facts_of(*item, created_at as int, now)) {
                    Some(j) => r is Some && (r->0).0 == self.rules@[j].action && (r->0).1@ == self.rules@[j].reason@,
                    None => r is None,
                },
    {
        let now = now_seconds();
        self.evaluate_rules_at(item, created_at, now)
    }
}

} // verus!
