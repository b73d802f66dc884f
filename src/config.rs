//! Configuration: file filters, severity thresholds, auto-decision rules.
use vstd::prelude::*;
use vstd::string::*;

verus! {

/// One auto-decision rule: when `condition` holds of an undecided suggestion,
/// `action` is taken with `reason` recorded.
#[derive(Debug, Clone)]
pub struct AutoRule {
    pub condition: String,
    pub action: AutoAction,
    pub reason: String,
}

/// What an auto-decision rule does.
#[derive(Debug, Clone, Copy, PartialEq, Eq, Structural)]
pub enum AutoAction {
    AutoAccept,
    AutoDismiss,
    AutoDefer,
}

impl AutoRule {
    pub fn duplicate(&self) -> (r: AutoRule)
        ensures
            r == *self,
    {
        AutoRule {
            condition: self.condition.clone(),
            action: self.action,
            reason: self.reason.clone(),
        }
    }
}

/// Which files are reviewed: glob patterns to include and to exclude.
#[derive(Debug, Clone)]
pub struct ReviewConfig {
    pub include_patterns: Vec<String>,
    pub exclude_patterns: Vec<String>,
}

/// Severities that block a merge while undecided, and those that warn.
#[derive(Debug, Clone)]
pub struct SeverityThresholds {
    pub blocking: Vec<String>,
    pub warning: Vec<String>,
}

/// When a pending review counts as stale.
#[derive(Debug, Clone)]
pub struct StalenessConfig {
    pub warn_after_days: u32,
    pub escalate_after_days: u32,
}

/// Where notifications go.
#[derive(Debug, Clone)]
pub struct NotificationsConfig {
    pub slack: SlackConfig,
}

#[derive(Debug, Clone)]
pub struct SlackConfig {
    pub enabled: bool,
    pub webhook_url: Option<String>,
    pub channel: Option<String>,
    pub on_critical: bool,
    pub on_new_review: bool,
}

/// The pipeline's settings.
#[derive(Debug, Clone)]
pub struct Config {
    pub review: ReviewConfig,
    pub severity_thresholds: SeverityThresholds,
    pub auto_rules: Vec<AutoRule>,
    pub staleness: StalenessConfig,
    pub notifications: NotificationsConfig,
}

pub open spec fn texts(v: Seq<String>) -> Seq<Seq<char>> {
    Seq::new(v.len(), |i: int| v[i]@)
}

pub open spec fn default_includes() -> Seq<Seq<char>> {
    seq!["**/*.rs"@, "**/*.py"@, "**/*.ts"@, "**/*.tsx"@, "**/*.js"@, "**/*.jsx"@, "**/*.go"@]
}

pub open spec fn default_excludes() -> Seq<Seq<char>> {
    seq![
        "**/test_*.py"@,
        "**/*_test.go"@,
        "**/*.test.ts"@,
        "**/*.spec.ts"@,
        "**/node_modules/**"@,
        "**/vendor/**"@,
        "**/target/**"@,
    ]
}

impl Default for ReviewConfig {
    fn default() -> (r: ReviewConfig)
        ensures
            texts(r.include_patterns@) == default_includes(),
            texts(r.exclude_patterns@) == default_excludes(),
    {
        let include_patterns = vec![
            String::from_str("**/*.rs"),
            String::from_str("**/*.py"),
            String::from_str("**/*.ts"),
            String::from_str("**/*.tsx"),
            String::from_str("**/*.js"),
            String::from_str("**/*.jsx"),
            String::from_str("**/*.go"),
        ];
        let exclude_patterns = vec![
            String::from_str("**/test_*.py"),
            String::from_str("**/*_test.go"),
            String::from_str("**/*.test.ts"),
            String::from_str("**/*.spec.ts"),
            String::from_str("**/node_modules/**"),
            String::from_str("**/vendor/**"),
            String::from_str("**/target/**"),
        ];
        assert(texts(include_patterns@) =~= default_includes());
        assert(texts(exclude_patterns@) =~= default_excludes());
        ReviewConfig { include_patterns, exclude_patterns }
    }
}

impl Default for SeverityThresholds {
    fn default() -> (r: SeverityThresholds)
        ensures
            texts(r.blocking@) == seq!["critical"@],
            texts(r.warning@) == seq!["high"@, "medium"@],
    {
        let blocking = vec![String::from_str("critical")];
        let warning = vec![String::from_str("high"), String::from_str("medium")];
        assert(texts(blocking@) =~= seq!["critical"@]);
        assert(texts(warning@) =~= seq!["high"@, "medium"@]);
        SeverityThresholds { blocking, warning }
    }
}

impl Default for StalenessConfig {
    fn default() -> (r: StalenessConfig)
        ensures
            r.warn_after_days == 3,
            r.escalate_after_days == 7,
    {
        StalenessConfig { warn_after_days: 3, escalate_after_days: 7 }
    }
}

impl Default for SlackConfig {
    fn default() -> (r: SlackConfig)
        ensures
            !r.enabled,
            r.webhook_url is None,
            r.channel is None,
            r.on_critical,
            !r.on_new_review,
    {
        SlackConfig {
            enabled: false,
            webhook_url: None,
            channel: None,
            on_critical: true,
            on_new_review: false,
        }
    }
}

impl Default for NotificationsConfig {
    fn default() -> (r: NotificationsConfig)
        ensures
            !r.slack.enabled,
    {
        NotificationsConfig { slack: SlackConfig::default() }
    }
}

impl Default for Config {
    fn default() -> (r: Config)
        ensures
            texts(r.review.include_patterns@) == default_includes(),
            texts(r.review.exclude_patterns@) == default_excludes(),
            texts(r.severity_thresholds.blocking@) == seq!["critical"@],
            texts(r.severity_thresholds.warning@) == seq!["high"@, "medium"@],
            r.auto_rules@.len() == 0,
            r.staleness.warn_after_days == 3,
            r.staleness.escalate_after_days == 7,
            !r.notifications.slack.enabled,
    {
        Config {
            review: ReviewConfig::default(),
            severity_thresholds: SeverityThresholds::default(),
            auto_rules: Vec::new(),
            staleness: StalenessConfig::default(),
            notifications: NotificationsConfig::default(),
        }
    }
}

/// An ASCII letter folded to lower case; any other character unchanged.
pub open spec fn ascii_lower(c: char) -> char {
    if 'A' <= c && c <= 'Z' {
        ((c as u32) + 32) as char
    } else {
        c
    }
}

/// Equality of two texts up to ASCII case, as `str::eq_ignore_ascii_case`.
pub open spec fn eq_ignore_case(a: Seq<char>, b: Seq<char>) -> bool {
    a.len() == b.len() && forall|i: int| 0 <= i < a.len() ==> ascii_lower(#[trigger] a[i]) == ascii_lower(b[i])
}

fn lower_char(c: char) -> (r: char)
    ensures
        r == ascii_lower(c),
{
    if 'A' <= c && c <= 'Z' {
        (((c as u32) + 32) as u8) as char
    } else {
        c
    }
}

pub fn equal_ignoring_case(a: &str, b: &str) -> (r: bool)
    ensures
        r == eq_ignore_case(a@, b@),
{
    let x = crate::text::chars_of(a);
    let y = crate::text::chars_of(b);
    if x.len() != y.len() {
        return false;
    }
    let mut i: usize = 0;
    while i < x.len()
        invariant
            x@ == a@,
            y@ == b@,
            x.len() == y.len(),
            i <= x.len(),
            forall|k: int| 0 <= k < i ==> ascii_lower(#[trigger] x@[k]) == ascii_lower(y@[k]),
        decreases x.len() - i,
    {
        if lower_char(x[i]) != lower_char(y[i]) {
            return false;
        }
        i = i + 1;
    }
    true
}

/// Whether some entry of `list` equals `s` up to ASCII case.
pub open spec fn listed_ignoring_case(list: Seq<String>, s: Seq<char>) -> bool {
    exists|i: int| 0 <= i < list.len() && eq_ignore_case(#[trigger] list[i]@, s)
}

fn any_equal_ignoring_case(list: &Vec<String>, s: &str) -> (r: bool)
    ensures
        r == listed_ignoring_case(list@, s@),
{
    let mut i: usize = 0;
    while i < list.len()
        invariant
            i <= list.len(),
            forall|k: int| 0 <= k < i ==> !eq_ignore_case(#[trigger] list@[k]@, s@),
        decreases list.len() - i,
    {
        if equal_ignoring_case(list[i].as_str(), s) {
            return true;
        }
        i = i + 1;
    }
    false
}

/// What `glob::Pattern::new(pattern)` and then `matches(path)` give: none
/// when the pattern does not compile.
pub uninterp spec fn glob_outcome(pattern: Seq<char>, path: Seq<char>) -> Option<bool>;

/// Relies on `glob::Pattern::new` and `glob::Pattern::matches`: the outcome
/// depends on the two texts alone.
#[verifier::external_body]
fn glob_match(pattern: &str, path: &str) -> (r: Option<bool>)
    ensures
        r == glob_outcome(pattern@, path@),
{
    match glob::Pattern::new(pattern) {
        Ok(p) => Some(p.matches(path)),
        Err(_) => None,
    }
}

/// Whether some pattern of `patterns` compiles and matches `path`.
pub open spec fn any_glob(patterns: Seq<String>, path: Seq<char>) -> bool {
    exists|i: int| 0 <= i < patterns.len() && #[trigger] glob_outcome(patterns[i]@, path) == Some(true)
}

fn matches_any(patterns: &Vec<String>, path: &str) -> (r: bool)
    ensures
        r == any_glob(patterns@, path@),
{
    let mut i: usize = 0;
    while i < patterns.len()
        invariant
            i <= patterns.len(),
            forall|k: int| 0 <= k < i ==> #[trigger] glob_outcome(patterns@[k]@, path@) != Some(true),
        decreases patterns.len() - i,
    {
        match glob_match(patterns[i].as_str(), path) {
            Some(true) => return true,
            _ => {},
        }
        i = i + 1;
    }
    false
}

impl Config {
    /// Whether `file_path` is reviewed: no exclude pattern matches it and
    /// some include pattern does; a pattern that does not compile is skipped.
    pub fn should_review_file(&self, file_path: &str) -> (r: bool)
        ensures
            r == (!any_glob(self.review.exclude_patterns@, file_path@) && any_glob(
                self.review.include_patterns@,
                file_path@,
            )),
    {
        if matches_any(&self.review.exclude_patterns, file_path) {
            return false;
        }
        matches_any(&self.review.include_patterns, file_path)
    }

    /// Whether `severity` blocks a merge, ignoring ASCII case.
    pub fn is_blocking_severity(&self, severity: &str) -> (r: bool)
        ensures
            r == listed_ignoring_case(self.severity_thresholds.blocking@, severity@),
    {
        any_equal_ignoring_case(&self.severity_thresholds.blocking, severity)
    }

    /// Whether `severity` only warns, ignoring ASCII case.
    pub fn is_warning_severity(&self, severity: &str) -> (r: bool)
        ensures
            r == listed_ignoring_case(self.severity_thresholds.warning@, severity@),
    {
        any_equal_ignoring_case(&self.severity_thresholds.warning, severity)
    }
}

} // verus!
