//! Suppressions: previously rejected findings that must not be reported again.
//!
//! A suppression is anchored to a file, an inclusive 1-indexed line range and,
//! optionally, a hash of the text of those lines. It stays active while it is
//! unexpired and, where a hash was taken and the file can be read, while the
//! lines still hash the same: an edit that touches them lets the finding
//! resurface.
use vstd::arithmetic::div_mod::{lemma_mod_multiples_vanish, lemma_mul_mod_noop_left, lemma_small_mod};
use vstd::prelude::*;
use vstd::string::*;

use crate::models::{SuggestionType, copy_opt_string};
use crate::text::{
    chars_of, contains, contains_seq, decimal, find_first_from, find_last, first_occ_from,
    has_prefix, last_occ, lines_of, lines_spec, lower_of, lowercase,
    parse_u32, slice_of, split_all, split_parts, starts_with, string_of, strip_start,
    strip_start_char, trim, trimmed, u32_text, u64_text, views,
};

verus! {

/// One durable suppression.
#[derive(Debug, Clone)]
pub struct Suppression {
    pub id: String,
    pub file: String,
    pub line_start: u32,
    pub line_end: u32,
    pub finding_type: Option<SuggestionType>,
    pub pattern: Option<String>,
    pub reason: String,
    pub suppressed_by: String,
    /// Seconds since the Unix epoch.
    pub suppressed_at: i64,
    /// Hash of the lines `line_start..=line_end` when the suppression was made.
    pub content_hash: Option<u64>,
    /// Seconds since the Unix epoch; the suppression lapses after this instant.
    pub expires: Option<i64>,
}

/// The stored suppressions, in order.
#[derive(Debug, Clone)]
pub struct Suppressions {
    pub items: Vec<Suppression>,
}

/// The current lines of one file of the repository under review.
#[derive(Debug, Clone)]
pub struct SourceFile {
    pub path: String,
    pub lines: Vec<String>,
}

pub const FNV_OFFSET: u64 = 0xcbf29ce484222325;

pub const FNV_PRIME: u64 = 0x100000001b3;

/// One step of the 64-bit FNV-1a hash over a character's code point.
pub open spec fn fnv_step(h: u64, c: char) -> u64 {
    (((h ^ (c as u32 as u64)) as nat * FNV_PRIME as nat) % 0x1_0000_0000_0000_0000nat) as u64
}

/// The 64-bit FNV-1a hash of a text, taken over its code points.
pub open spec fn fnv_hash(s: Seq<char>) -> u64
    decreases s.len(),
{
    if s.len() == 0 {
        FNV_OFFSET
    } else {
        fnv_step(fnv_hash(s.drop_last()), s.last())
    }
}

/// Lines joined with `\n` between them.
pub open spec fn join_lines(ls: Seq<Seq<char>>) -> Seq<char>
    decreases ls.len(),
{
    if ls.len() == 0 {
        seq![]
    } else if ls.len() == 1 {
        ls[0]
    } else {
        join_lines(ls.drop_last()) + seq!['\n'] + ls.last()
    }
}

pub open spec fn line_views(lines: Seq<String>) -> Seq<Seq<char>> {
    Seq::new(lines.len(), |i: int| lines[i]@)
}

/// The hash of lines `start..=end` (1-indexed, `end` clamped to the file's
/// length), or none where that range holds no line.
pub open spec fn range_hash(lines: Seq<Seq<char>>, start: int, end: int) -> Option<u64> {
    let e = if end < lines.len() {
        end
    } else {
        lines.len() as int
    };
    if 1 <= start && start <= e {
        Some(fnv_hash(join_lines(lines.subrange(start - 1, e))))
    } else {
        None
    }
}

/// Index of the first source file at `path`.
pub open spec fn file_index(files: Seq<SourceFile>, path: Seq<char>) -> Option<int>
    decreases files.len(),
{
    if files.len() == 0 {
        None
    } else {
        match file_index(files.drop_last(), path) {
            Some(i) => Some(i),
            None => if files.last().path@ == path {
                Some(files.len() - 1)
            } else {
                None
            },
        }
    }
}

/// The current hash of a suppression's lines, where they can be read.
pub open spec fn current_hash(s: Suppression, files: Seq<SourceFile>) -> Option<u64> {
    match file_index(files, s.file@) {
        Some(i) => range_hash(line_views(files[i].lines@), s.line_start as int, s.line_end as int),
        None => None,
    }
}

/// Whether a suppression is active at `now`, the repository's files being
/// `files` where they are known.
pub open spec fn is_active(s: Suppression, now: int, files: Option<Seq<SourceFile>>) -> bool {
    &&& match s.expires {
        Some(t) => now <= t,
        None => true,
    }
    &&& match (s.content_hash, files) {
        (Some(h), Some(fs)) => match current_hash(s, fs) {
            Some(c) => c == h,
            None => true,
        },
        _ => true,
    }
}

/// The active suppressions, in stored order.
pub open spec fn active_of(items: Seq<Suppression>, now: int, files: Option<Seq<SourceFile>>) -> Seq<
    Suppression,
>
    decreases items.len(),
{
    if items.len() == 0 {
        seq![]
    } else if is_active(items.last(), now, files) {
        active_of(items.drop_last(), now, files).push(items.last())
    } else {
        active_of(items.drop_last(), now, files)
    }
}

pub open spec fn opt_files(files: Option<&Vec<SourceFile>>) -> Option<Seq<SourceFile>> {
    match files {
        Some(f) => Some(f@),
        None => None,
    }
}

/// Whether a suppression covers a finding, the description and the pattern
/// having been folded to lower case already.
pub open spec fn covers_folded(
    s: Suppression,
    file: Seq<char>,
    line_start: int,
    line_end: int,
    finding_type: SuggestionType,
    folded_description: Seq<char>,
    folded_pattern: Seq<char>,
) -> bool {
    &&& s.file@ == file
    &&& s.line_start <= line_end && s.line_end >= line_start
    &&& match s.finding_type {
        Some(t) => t == finding_type,
        None => true,
    }
    &&& (s.pattern is Some ==> contains_seq(folded_description, folded_pattern))
}

/// Whether a suppression covers a finding: same file, overlapping lines,
/// the same type if it names one, and its pattern, if any, found in the
/// description regardless of case.
pub open spec fn covers(
    s: Suppression,
    file: Seq<char>,
    line_start: int,
    line_end: int,
    finding_type: SuggestionType,
    description: Seq<char>,
) -> bool {
    covers_folded(
        s,
        file,
        line_start,
        line_end,
        finding_type,
        lower_of(description),
        match s.pattern {
            Some(p) => lower_of(p@),
            None => seq![],
        },
    )
}

/// Index of the first suppression that covers a finding.
pub open spec fn first_cover(
    items: Seq<Suppression>,
    file: Seq<char>,
    line_start: int,
    line_end: int,
    finding_type: SuggestionType,
    description: Seq<char>,
) -> Option<int>
    decreases items.len(),
{
    if items.len() == 0 {
        None
    } else {
        match first_cover(items.drop_last(), file, line_start, line_end, finding_type, description) {
            Some(i) => Some(i),
            None => if covers(items.last(), file, line_start, line_end, finding_type, description) {
                Some(items.len() - 1)
            } else {
                None
            },
        }
    }
}

/// The 64-bit FNV-1a hash of `v`'s code points.
pub fn fnv_of(v: &Vec<char>) -> (r: u64)
    ensures
        r == fnv_hash(v@),
{
    let mut h: u64 = FNV_OFFSET;
    let mut i: usize = 0;
    while i < v.len()
        invariant
            i <= v.len(),
            h == fnv_hash(v@.subrange(0, i as int)),
        decreases v.len() - i,
    {
        assert(v@.subrange(0, i + 1).drop_last() =~= v@.subrange(0, i as int));
        h = (h ^ (v[i] as u32 as u64)).wrapping_mul(FNV_PRIME);
        i = i + 1;
    }
    assert(v@.subrange(0, i as int) =~= v@);
    h
}

/// The hash of lines `start..=end` of `lines` (1-indexed, `end` clamped to
/// the number of lines), or none where that range holds no line.
pub fn content_hash_of(lines: &Vec<String>, start: u32, end: u32) -> (r: Option<u64>)
    ensures
        r == range_hash(line_views(lines@), start as int, end as int),
{
    let n = lines.len();
    let e: usize = if (end as usize) < n {
        end as usize
    } else {
        n
    };
    if start < 1 || start as usize > e {
        return None;
    }
    let ghost ls = line_views(lines@).subrange(start - 1, e as int);
    let mut text: Vec<char> = chars_of(lines[start as usize - 1].as_str());
    let mut i: usize = start as usize;
    assert(line_views(lines@).subrange(start - 1, i as int) =~= seq![lines@[start - 1]@]);
    while i < e
        invariant
            1 <= start,
            start as int <= i <= e <= lines.len(),
            text@ == join_lines(line_views(lines@).subrange(start - 1, i as int)),
        decreases e - i,
    {
        let next = chars_of(lines[i].as_str());
        assert(line_views(lines@).len() == lines@.len());
        assert(line_views(lines@)[i as int] == lines@[i as int]@);
        let ghost s0: int = start as int - 1;
        let ghost lv = line_views(lines@);
        let ghost pre = lv.subrange(s0, i + 1);
        assert(pre.drop_last() =~= lv.subrange(s0, i as int));
        assert(pre.last() == lines@[i as int]@);
        text.push('\n');
        let mut j: usize = 0;
        let ghost base = text@;
        while j < next.len()
            invariant
                j <= next.len(),
                text@ == base + next@.subrange(0, j as int),
            decreases next.len() - j,
        {
            text.push(next[j]);
            j = j + 1;
            assert(text@ =~= base + next@.subrange(0, j as int));
        }
        assert(next@.subrange(0, j as int) =~= next@);
        i = i + 1;
    }
    Some(fnv_of(&text))
}

/// Index of the first file at `path`.
pub fn find_file(files: &Vec<SourceFile>, path: &String) -> (r: Option<usize>)
    ensures
        match r {
            Some(j) => j < files@.len() && file_index(files@, path@) == Some(j as int),
            None => file_index(files@, path@) is None,
        },
{
    let mut i: usize = 0;
    while i < files.len()
        invariant
            i <= files.len(),
            file_index(files@.subrange(0, i as int), path@) is None,
        decreases files.len() - i,
    {
        assert(files@.subrange(0, i + 1).drop_last() =~= files@.subrange(0, i as int));
        if files[i].path == *path {
            proof { lemma_file_index_prefix(files@, path@, i + 1); }
            return Some(i);
        }
        i = i + 1;
    }
    assert(files@.subrange(0, i as int) =~= files@);
    None
}

proof fn lemma_file_index_prefix(files: Seq<SourceFile>, path: Seq<char>, n: int)
    requires
        0 <= n <= files.len(),
        file_index(files.subrange(0, n), path) is Some,
    ensures
        file_index(files, path) == file_index(files.subrange(0, n), path),
        file_index(files, path)->0 < n,
    decreases files.len() - n,
{
    lemma_file_index_bound(files.subrange(0, n), path);
    if n < files.len() {
        assert(files.subrange(0, n + 1).drop_last() =~= files.subrange(0, n));
        lemma_file_index_prefix(files, path, n + 1);
    } else {
        assert(files.subrange(0, n) =~= files);
    }
}

proof fn lemma_file_index_bound(files: Seq<SourceFile>, path: Seq<char>)
    ensures
        file_index(files, path) is Some ==> 0 <= file_index(files, path)->0 < files.len(),
    decreases files.len(),
{
    if files.len() > 0 {
        lemma_file_index_bound(files.drop_last(), path);
    }
}

impl Suppression {
    pub fn duplicate(&self) -> (r: Suppression)
        ensures
            r == *self,
    {
        Suppression {
            id: self.id.clone(),
            file: self.file.clone(),
            line_start: self.line_start,
            line_end: self.line_end,
            finding_type: self.finding_type,
            pattern: copy_opt_string(&self.pattern),
            reason: self.reason.clone(),
            suppressed_by: self.suppressed_by.clone(),
            suppressed_at: self.suppressed_at,
            content_hash: self.content_hash,
            expires: self.expires,
        }
    }

    /// The current hash of this suppression's lines, where they can be read.
    pub fn current_hash(&self, files: &Vec<SourceFile>) -> (r: Option<u64>)
        ensures
            r == current_hash(*self, files@),
    {
        match find_file(files, &self.file) {
            Some(i) => content_hash_of(&files[i].lines, self.line_start, self.line_end),
            None => None,
        }
    }

    /// Whether this suppression is active at `now`; `files` are the
    /// repository's current files, or none where no repository is at hand.
    pub fn is_active(&self, now: i64, files: Option<&Vec<SourceFile>>) -> (r: bool)
        ensures
            r == is_active(*self, now as int, opt_files(files)),
    {
        match self.expires {
            Some(t) => {
                if now > t {
                    return false;
                }
            },
            None => {},
        }
        match (self.content_hash, files) {
            (Some(h), Some(fs)) => match self.current_hash(fs) {
                Some(c) => c == h,
                None => true,
            },
            _ => true,
        }
    }

    /// Whether this suppression covers a finding whose description and whose
    /// suppression pattern were already folded to lower case.
    pub fn covers_folded(
        &self,
        file: &str,
        line_start: u32,
        line_end: u32,
        finding_type: SuggestionType,
        folded_description: &str,
        folded_pattern: &str,
    ) -> (r: bool)
        ensures
            r == covers_folded(
                *self,
                file@,
                line_start as int,
                line_end as int,
                finding_type,
                folded_description@,
                folded_pattern@,
            ),
    {
        if self.file.as_str().to_owned() != file.to_owned() {
            return false;
        }
        if !(self.line_start <= line_end && self.line_end >= line_start) {
            return false;
        }
        match self.finding_type {
            Some(t) => {
                if t != finding_type {
                    return false;
                }
            },
            None => {},
        }
        match &self.pattern {
            Some(_) => contains(&chars_of(folded_description), &chars_of(folded_pattern)),
            None => true,
        }
    }

    /// Whether this suppression covers a finding: same file, overlapping
    /// lines, the same type if it names one, and its pattern, if any, found in
    /// the description regardless of case.
    pub fn covers(
        &self,
        file: &str,
        line_start: u32,
        line_end: u32,
        finding_type: SuggestionType,
        description: &str,
    ) -> (r: bool)
        ensures
            r == covers(*self, file@, line_start as int, line_end as int, finding_type, description@),
    {
        let folded = lowercase(description);
        let pattern = match &self.pattern {
            Some(p) => lowercase(p.as_str()),
            None => String::new(),
        };
        self.covers_folded(file, line_start, line_end, finding_type, folded.as_str(), pattern.as_str())
    }
}

impl Suppressions {
    pub fn new() -> (r: Suppressions)
        ensures
            r.items@.len() == 0,
    {
        Suppressions { items: Vec::new() }
    }

    /// The active suppressions, in stored order.
    pub fn active(&self, now: i64, files: Option<&Vec<SourceFile>>) -> (r: Vec<Suppression>)
        ensures
            r@ == active_of(self.items@, now as int, opt_files(files)),
    {
        let mut out: Vec<Suppression> = Vec::new();
        let mut i: usize = 0;
        while i < self.items.len()
            invariant
                i <= self.items.len(),
                out@ == active_of(self.items@.subrange(0, i as int), now as int, opt_files(files)),
            decreases self.items.len() - i,
        {
            assert(self.items@.subrange(0, i + 1).drop_last() =~= self.items@.subrange(0, i as int));
            if self.items[i].is_active(now, files) {
                out.push(self.items[i].duplicate());
            }
            i = i + 1;
        }
        assert(self.items@.subrange(0, i as int) =~= self.items@);
        out
    }

    /// The first active suppression, in stored order, that covers a finding.
    pub fn is_suppressed(
        &self,
        file: &str,
        line_start: u32,
        line_end: u32,
        finding_type: SuggestionType,
        description: &str,
        now: i64,
        files: Option<&Vec<SourceFile>>,
    ) -> (r: Option<Suppression>)
        ensures
            ({
                let act = active_of(self.items@, now as int, opt_files(files));
                match first_cover(act, file@, line_start as int, line_end as int, finding_type, description@) {
                    Some(i) => r == Some(act[i]),
                    None => r is None,
                }
            }),
    {
        let act = self.active(now, files);
        let mut i: usize = 0;
        while i < act.len()
            invariant
                i <= act.len(),
                act@ == active_of(self.items@, now as int, opt_files(files)),
                first_cover(act@.subrange(0, i as int), file@, line_start as int, line_end as int, finding_type, description@) is None,
            decreases act.len() - i,
        {
            let ghost pre = act@.subrange(0, i + 1);
            assert(pre.drop_last() =~= act@.subrange(0, i as int));
            assert(pre.last() == act@[i as int]);
            if act[i].covers(file, line_start, line_end, finding_type, description) {
                assert(first_cover(pre, file@, line_start as int, line_end as int, finding_type, description@) == Some(i as int));
                proof { lemma_first_cover_prefix(act@, file@, line_start as int, line_end as int, finding_type, description@, i + 1); }
                return Some(act[i].duplicate());
            }
            i = i + 1;
        }
        assert(act@.subrange(0, i as int) =~= act@);
        None
    }

    /// Removes every inactive suppression; returns how many were removed.
    pub fn cleanup(&mut self, now: i64, files: Option<&Vec<SourceFile>>) -> (r: usize)
        ensures
            final(self).items@ == active_of(old(self).items@, now as int, opt_files(files)),
            r == old(self).items@.len() - final(self).items@.len(),
    {
        let kept = self.active(now, files);
        proof { lemma_active_len(self.items@, now as int, opt_files(files)); }
        let removed = self.items.len() - kept.len();
        self.items = kept;
        removed
    }

    /// An instruction block listing the active suppressions, for the external
    /// review service; empty when none is active.
    pub fn to_prompt(&self, now: i64, files: Option<&Vec<SourceFile>>) -> (r: String)
        ensures
            r@ == prompt_text(active_of(self.items@, now as int, opt_files(files))),
    {
        let act = self.active(now, files);
        if act.len() == 0 {
            return String::new();
        }
        let mut out = String::from_str(
            "\n\nPreviously suppressed findings (DO NOT report these again):\n",
        );
        let mut i: usize = 0;
        while i < act.len()
            invariant
                i <= act.len(),
                act@.len() > 0,
                out@ == prompt_header() + prompt_lines(act@.subrange(0, i as int)),
            decreases act.len() - i,
        {
            assert(act@.subrange(0, i + 1).drop_last() =~= act@.subrange(0, i as int));
            let s = &act[i];
            let ghost before = out@;
            out.append("- ");
            out.append(s.file.as_str());
            out.append(" (lines ");
            out.append(u64_text(s.line_start as u64).as_str());
            out.append("-");
            out.append(u64_text(s.line_end as u64).as_str());
            out.append(") [");
            out.append(kind_label(s.finding_type));
            out.append("]: ");
            out.append(s.reason.as_str());
            out.append("\n");
            assert(out@ =~= before + prompt_line(act@[i as int]));
            i = i + 1;
        }
        assert(act@.subrange(0, i as int) =~= act@);
        out
    }
}

proof fn lemma_active_len(items: Seq<Suppression>, now: int, files: Option<Seq<SourceFile>>)
    ensures
        active_of(items, now, files).len() <= items.len(),
    decreases items.len(),
{
    if items.len() > 0 {
        lemma_active_len(items.drop_last(), now, files);
    }
}

proof fn lemma_first_cover_prefix(
    items: Seq<Suppression>,
    file: Seq<char>,
    line_start: int,
    line_end: int,
    finding_type: SuggestionType,
    description: Seq<char>,
    n: int,
)
    requires
        0 <= n <= items.len(),
        first_cover(items.subrange(0, n), file, line_start, line_end, finding_type, description) is Some,
    ensures
        first_cover(items, file, line_start, line_end, finding_type, description) == first_cover(
            items.subrange(0, n),
            file,
            line_start,
            line_end,
            finding_type,
            description,
        ),
    decreases items.len() - n,
{
    if n < items.len() {
        assert(items.subrange(0, n + 1).drop_last() =~= items.subrange(0, n));
        lemma_first_cover_prefix(items, file, line_start, line_end, finding_type, description, n + 1);
    } else {
        assert(items.subrange(0, n) =~= items);
    }
}

/// The label of a suppression's finding type in the prompt.
pub open spec fn kind_label_text(t: Option<SuggestionType>) -> Seq<char> {
    match t {
        Some(SuggestionType::Security) => "security"@,
        Some(SuggestionType::Performance) => "performance"@,
        Some(SuggestionType::Style) => "style"@,
        Some(SuggestionType::Logic) => "logic"@,
        Some(SuggestionType::Documentation) => "documentation"@,
        None => "any"@,
    }
}

pub fn kind_label(t: Option<SuggestionType>) -> (r: &'static str)
    ensures
        r@ == kind_label_text(t),
{
    match t {
        Some(SuggestionType::Security) => "security",
        Some(SuggestionType::Performance) => "performance",
        Some(SuggestionType::Style) => "style",
        Some(SuggestionType::Logic) => "logic",
        Some(SuggestionType::Documentation) => "documentation",
        None => "any",
    }
}

pub open spec fn prompt_header() -> Seq<char> {
    "\n\nPreviously suppressed findings (DO NOT report these again):\n"@
}

/// One line of the prompt: `- file (lines a-b) [type]: reason`.
pub open spec fn prompt_line(s: Suppression) -> Seq<char> {
    "- "@ + s.file@ + " (lines "@ + decimal(s.line_start as nat) + "-"@ + decimal(s.line_end as nat)
        + ") ["@ + kind_label_text(s.finding_type) + "]: "@ + s.reason@ + "\n"@
}

pub open spec fn prompt_lines(items: Seq<Suppression>) -> Seq<char>
    decreases items.len(),
{
    if items.len() == 0 {
        seq![]
    } else {
        prompt_lines(items.drop_last()) + prompt_line(items.last())
    }
}

/// The whole prompt block for the given suppressions.
pub open spec fn prompt_text(items: Seq<Suppression>) -> Seq<char> {
    if items.len() == 0 {
        seq![]
    } else {
        prompt_header() + prompt_lines(items)
    }
}

/// A rejected finding read back from a review's markdown.
#[derive(Debug, Clone)]
pub struct RejectedFinding {
    pub file: String,
    pub line_start: u32,
    pub line_end: u32,
    pub finding_type: String,
    pub description: String,
    pub reason: String,
}

/// The rejected findings read from past reviews.
#[derive(Debug, Clone)]
pub struct Rejections {
    pub items: Vec<RejectedFinding>,
}

/// The file and line range of a line `**File:** `path` (lines a-b)`.
pub open spec fn file_line_fields(l: Seq<char>) -> Option<(Seq<char>, u32, u32)> {
    match first_occ_from(l, "`"@, 0) {
        None => None,
        Some(a) => match first_occ_from(l, "`"@, a + 1) {
            None => None,
            Some(e) => match first_occ_from(l, "(lines "@, 0) {
                None => None,
                Some(b) => match first_occ_from(l, ")"@, b + 7) {
                    None => None,
                    Some(c) => {
                        let parts = split_all(l.subrange(b + 7, c), "-"@);
                        if parts.len() == 2 {
                            match (u32_text(parts[0]), u32_text(parts[1])) {
                                (Some(x), Some(y)) => Some((l.subrange(a + 1, e), x, y)),
                                _ => None,
                            }
                        } else {
                            None
                        }
                    },
                },
            },
        },
    }
}

/// Reads a line `**File:** `path` (lines a-b)`.
pub fn parse_file_line(line: &str) -> (r: Option<(String, u32, u32)>)
    ensures
        match file_line_fields(line@) {
            Some(t) => r is Some && (r->0).0@ == t.0 && (r->0).1 == t.1 && (r->0).2 == t.2,
            None => r is None,
        },
{
    let l = chars_of(line);
    let tick = chars_of("`");
    let open = chars_of("(lines ");
    let close = chars_of(")");
    proof {
        reveal_strlit("`");
        reveal_strlit("(lines ");
    }
    assert(tick@.len() == 1 && open@.len() == 7);
    let n = l.len();
    let a = match find_first_from(&l, &tick, 0) {
        Some(a) => a,
        None => return None,
    };
    let e = match find_first_from(&l, &tick, a + 1) {
        Some(e) => e,
        None => return None,
    };
    let b = match find_first_from(&l, &open, 0) {
        Some(b) => b,
        None => return None,
    };
    assert(b + 7 <= n);
    let c = match find_first_from(&l, &close, b + 7) {
        Some(c) => c,
        None => return None,
    };
    let span = slice_of(&l, b + 7, c);
    let parts = split_parts(&span, &chars_of("-"));
    if parts.len() != 2 {
        return None;
    }
    assert(parts@[0]@ == views(parts@)[0] && parts@[1]@ == views(parts@)[1]);
    assert(parts@[0]@.subrange(0, parts@[0]@.len() as int) =~= parts@[0]@);
    assert(parts@[1]@.subrange(0, parts@[1]@.len() as int) =~= parts@[1]@);
    let x = match parse_u32(&parts[0], 0, parts[0].len()) {
        Some(x) => x,
        None => return None,
    };
    let y = match parse_u32(&parts[1], 0, parts[1].len()) {
        Some(y) => y,
        None => return None,
    };
    Some((string_of(&slice_of(&l, a + 1, e)), x, y))
}

/// The finding type named at the end of a header `... - Type`, in lower
/// case; `unknown` when the header has no ` - `.
pub open spec fn finding_type_text(h: Seq<char>) -> Seq<char> {
    match last_occ(h, " - "@) {
        Some(p) => lower_of(trim(h.subrange(p + 3, h.len() as int))),
        None => "unknown"@,
    }
}

/// The finding type named at the end of a header like `#### ... - Logic`.
pub fn extract_finding_type(header: &str) -> (r: String)
    ensures
        r@ == finding_type_text(header@),
{
    let h = chars_of(header);
    let sep = chars_of(" - ");
    proof {
        reveal_strlit(" - ");
    }
    assert(sep@.len() == 3);
    match find_last(&h, &sep) {
        Some(p) => {
            let n = h.len();
            let tail = trimmed(&slice_of(&h, p + 3, n));
            lowercase(string_of(&tail).as_str())
        },
        None => String::from_str("unknown"),
    }
}

/// A rejected finding as values.
pub struct RejectedView {
    pub file: Seq<char>,
    pub line_start: u32,
    pub line_end: u32,
    pub finding_type: Seq<char>,
    pub description: Seq<char>,
    pub reason: Seq<char>,
}

impl View for RejectedFinding {
    type V = RejectedView;

    open spec fn view(&self) -> RejectedView {
        RejectedView {
            file: self.file@,
            line_start: self.line_start,
            line_end: self.line_end,
            finding_type: self.finding_type@,
            description: self.description@,
            reason: self.reason@,
        }
    }
}

/// A line that ends a finding's description.
pub open spec fn ends_description(l: Seq<char>) -> bool {
    starts_with(l, "**Proposed fix:**"@) || starts_with(l, "**Decision:**"@) || starts_with(
        l,
        "####"@,
    ) || starts_with(l, "---"@)
}

/// The first line at or after `j` that ends the description (or `j` past the end).
pub open spec fn description_end(ls: Seq<Seq<char>>, j: int) -> int
    decreases ls.len() - j,
{
    if j >= ls.len() || ends_description(ls[j]) {
        j
    } else {
        description_end(ls, j + 1)
    }
}

/// `acc` followed by `part`, with a space between when both are non-empty.
pub open spec fn joined(acc: Seq<char>, part: Seq<char>) -> Seq<char> {
    if acc.len() == 0 {
        part
    } else {
        acc + seq![' '] + part
    }
}

/// The description gathered from lines `j..end`: the non-empty lines that
/// are not a file line, joined by spaces.
pub open spec fn description_from(ls: Seq<Seq<char>>, j: int, end: int, acc: Seq<char>) -> Seq<char>
    decreases end - j,
{
    if j >= end || j < 0 || j >= ls.len() {
        acc
    } else {
        let l = ls[j];
        let acc2 = if l.len() > 0 && !starts_with(l, "**File:**"@) {
            joined(acc, l)
        } else {
            acc
        };
        description_from(ls, j + 1, end, acc2)
    }
}

/// Scanning from `j` for the rejection marker: its line, if found before a
/// header or rule line ends the finding, and where the scan stopped.
pub open spec fn marker_scan(ls: Seq<Seq<char>>, j: int) -> (Option<int>, int)
    decreases ls.len() - j,
{
    if j >= ls.len() || j < 0 {
        (None, j)
    } else if contains_seq(ls[j], "❌ REJECTED"@) {
        (Some(j), j)
    } else if starts_with(ls[j], "####"@) || starts_with(ls[j], "---"@) {
        (None, j)
    } else {
        marker_scan(ls, j + 1)
    }
}

/// The reason quoted on the `>` lines from `k` on, joined by spaces.
pub open spec fn reason_from(ls: Seq<Seq<char>>, k: int, acc: Seq<char>) -> Seq<char>
    decreases ls.len() - k,
{
    if 0 <= k < ls.len() && starts_with(ls[k], ">"@) {
        reason_from(ls, k + 1, joined(acc, trim(strip_start(ls[k], '>'))))
    } else {
        acc
    }
}

/// Whether line `i` opens a finding: a `####` header holding a backtick.
pub open spec fn opens_finding(l: Seq<char>) -> bool {
    starts_with(l, "####"@) && contains_seq(l, "`"@)
}

/// The file fields that follow the header at `i`; empty when absent.
pub open spec fn fields_after(ls: Seq<Seq<char>>, i: int) -> (Seq<char>, u32, u32) {
    if i + 1 < ls.len() && starts_with(ls[i + 1], "**File:**"@) {
        match file_line_fields(ls[i + 1]) {
            Some(t) => t,
            None => (seq![], 0, 0),
        }
    } else {
        (seq![], 0, 0)
    }
}

/// The rejected findings in lines `i..`.
pub open spec fn rejections_from(ls: Seq<Seq<char>>, i: int) -> Seq<RejectedView>
    decreases ls.len() - i,
{
    if i < 0 || i >= ls.len() {
        seq![]
    } else if opens_finding(ls[i]) {
        let fields = fields_after(ls, i);
        let j = description_end(ls, i + 2);
        let scan = marker_scan(ls, j);
        let next = scan.1;
        let found = match scan.0 {
            Some(m) => if fields.0.len() > 0 {
                seq![
                    RejectedView {
                        file: fields.0,
                        line_start: fields.1,
                        line_end: fields.2,
                        finding_type: finding_type_text(ls[i]),
                        description: trim(description_from(ls, i + 2, j, seq![])),
                        reason: reason_from(ls, m + 1, seq![]),
                    },
                ]
            } else {
                seq![]
            },
            None => seq![],
        };
        if i < next && next < ls.len() {
            found + rejections_from(ls, next)
        } else {
            found
        }
    } else {
        rejections_from(ls, i + 1)
    }
}

proof fn lemma_description_end_bound(ls: Seq<Seq<char>>, j: int)
    ensures
        description_end(ls, j) >= j,
        j <= ls.len() ==> description_end(ls, j) <= ls.len(),
    decreases ls.len() - j,
{
    if !(j >= ls.len() || ends_description(ls[j])) {
        lemma_description_end_bound(ls, j + 1);
    }
}

proof fn lemma_marker_scan_bound(ls: Seq<Seq<char>>, j: int)
    ensures
        marker_scan(ls, j).1 >= j,
        0 <= j <= ls.len() ==> marker_scan(ls, j).1 <= ls.len(),
        marker_scan(ls, j).0 is Some ==> marker_scan(ls, j).0->0 == marker_scan(ls, j).1 && 0 <= marker_scan(ls, j).1 < ls.len(),
    decreases ls.len() - j,
{
    if !(j >= ls.len() || j < 0) && !contains_seq(ls[j], "❌ REJECTED"@) && !(starts_with(ls[j], "####"@) || starts_with(ls[j], "---"@)) {
        lemma_marker_scan_bound(ls, j + 1);
    }
}

/// `acc` followed by `part`, with a space between when both are non-empty.
fn join_into(acc: &mut String, part: &str)
    ensures
        final(acc)@ == joined(old(acc)@, part@),
{
    if acc.as_str().unicode_len() != 0 {
        push_space(acc);
    }
    acc.append(part);
}

fn push_space(s: &mut String)
    ensures
        final(s)@ == old(s)@ + seq![' '],
{
    crate::text::push_char(s, ' ');
}

fn text_of(v: &Vec<char>) -> (r: String)
    ensures
        r@ == v@,
{
    string_of(v)
}

/// Reads the rejected findings from a review's markdown: each `####` header
/// with a backtick opens a finding, the next line may name its file and
/// lines, the following lines describe it, and a later `❌ REJECTED` marker,
/// before the next header or rule, records it with the reason quoted on the
/// `>` lines after the marker. Findings without a file are dropped.
pub fn parse_rejections(content: &str) -> (r: Vec<RejectedFinding>)
    ensures
        Seq::new(r@.len(), |k: int| r@[k]@) == rejections_from(lines_spec(content@), 0),
{
    let lines = lines_of(&chars_of(content));
    let ghost ls = lines_spec(content@);
    let hdr = chars_of("####");
    let tick = chars_of("`");
    let file_tag = chars_of("**File:**");
    let fix_tag = chars_of("**Proposed fix:**");
    let decision_tag = chars_of("**Decision:**");
    let rule = chars_of("---");
    let marker = chars_of("❌ REJECTED");
    let quote = chars_of(">");
    let mut findings: Vec<RejectedFinding> = Vec::new();
    let mut i: usize = 0;
    let n = lines.len();
    while i < n
        invariant
            n == lines@.len() == ls.len(),
            ls == lines_spec(content@),
            forall|k: int| 0 <= k < lines@.len() ==> #[trigger] lines@[k]@ == ls[k],
            hdr@ == "####"@,
            tick@ == "`"@,
            file_tag@ == "**File:**"@,
            fix_tag@ == "**Proposed fix:**"@,
            decision_tag@ == "**Decision:**"@,
            rule@ == "---"@,
            marker@ == "❌ REJECTED"@,
            quote@ == ">"@,
            Seq::new(findings@.len(), |k: int| findings@[k]@) + rejections_from(ls, i as int)
                == rejections_from(ls, 0),
        decreases n - i,
    {
        let line = &lines[i];
        if has_prefix(line, &hdr) && contains(line, &tick) && i + 1 >= n {
            proof {
                lemma_marker_scan_bound(ls, i + 2);
                assert(rejections_from(ls, i as int) =~= Seq::<RejectedView>::empty());
            }
            i = n;
        } else if has_prefix(line, &hdr) && contains(line, &tick) {
            let finding_type = extract_finding_type(text_of(line).as_str());
            let mut file = String::new();
            let mut line_start: u32 = 0;
            let mut line_end: u32 = 0;
            if i + 1 < n && has_prefix(&lines[i + 1], &file_tag) {
                match parse_file_line(text_of(&lines[i + 1]).as_str()) {
                    Some((f, ls0, le0)) => {
                        file = f;
                        line_start = ls0;
                        line_end = le0;
                    },
                    None => {},
                }
            }
            assert(file@ == fields_after(ls, i as int).0);
            assert(line_start == fields_after(ls, i as int).1);
            assert(line_end == fields_after(ls, i as int).2);
            let mut description = String::new();
            let mut j: usize = i + 2;
            proof { lemma_description_end_bound(ls, i + 2); }
            while j < n && !(has_prefix(&lines[j], &fix_tag) || has_prefix(&lines[j], &decision_tag)
                || has_prefix(&lines[j], &hdr) || has_prefix(&lines[j], &rule))
                invariant
                    n == lines@.len() == ls.len(),
                    forall|k: int| 0 <= k < lines@.len() ==> #[trigger] lines@[k]@ == ls[k],
                    hdr@ == "####"@,
                    file_tag@ == "**File:**"@,
                    fix_tag@ == "**Proposed fix:**"@,
                    decision_tag@ == "**Decision:**"@,
                    rule@ == "---"@,
                    i + 2 <= j,
                    description_end(ls, j as int) == description_end(ls, i + 2),
                    description_from(ls, j as int, description_end(ls, i + 2), description@)
                        == description_from(ls, i + 2, description_end(ls, i + 2), seq![]),
                decreases n - j,
            {
                proof { lemma_description_end_bound(ls, j + 1); }
                let l = &lines[j];
                if l.len() != 0 && !has_prefix(l, &file_tag) {
                    join_into(&mut description, text_of(l).as_str());
                }
                j = j + 1;
            }
            let ghost dend = description_end(ls, i + 2);
            assert(j as int == dend);
            assert(description@ == description_from(ls, i + 2, dend, seq![]));
            let mut found: Option<usize> = None;
            proof { lemma_marker_scan_bound(ls, j as int); }
            let ghost scan = marker_scan(ls, j as int);
            loop
                invariant_except_break
                    n == lines@.len() == ls.len(),
                    forall|k: int| 0 <= k < lines@.len() ==> #[trigger] lines@[k]@ == ls[k],
                    hdr@ == "####"@,
                    rule@ == "---"@,
                    marker@ == "❌ REJECTED"@,
                    found is None,
                    j <= n,
                    marker_scan(ls, j as int) == scan,
                ensures
                    found is Some ==> scan.0 == Some(j as int) && found->0 == j,
                    found is None ==> scan.0 is None,
                    scan.1 == j,
                    j <= n,
                decreases n - j,
            {
                if j >= n {
                    break;
                }
                if contains(&lines[j], &marker) {
                    found = Some(j);
                    break;
                }
                if has_prefix(&lines[j], &hdr) || has_prefix(&lines[j], &rule) {
                    break;
                }
                j = j + 1;
            }
            match found {
                Some(m) => {
                    let mut reason = String::new();
                    let mut k: usize = m + 1;
                    while k < n && has_prefix(&lines[k], &quote)
                        invariant
                            n == lines@.len() == ls.len(),
                            forall|q: int| 0 <= q < lines@.len() ==> #[trigger] lines@[q]@ == ls[q],
                            quote@ == ">"@,
                            reason_from(ls, k as int, reason@) == reason_from(ls, m + 1, seq![]),
                        decreases n - k,
                    {
                        let r = trimmed(&strip_start_char(&lines[k], '>'));
                        join_into(&mut reason, text_of(&r).as_str());
                        k = k + 1;
                    }
                    if file.as_str().unicode_len() != 0 {
                        let ghost before = Seq::new(findings@.len(), |q: int| findings@[q]@);
                        let d = trimmed(&chars_of(description.as_str()));
                        findings.push(
                            RejectedFinding {
                                file,
                                line_start,
                                line_end,
                                finding_type,
                                description: text_of(&d),
                                reason,
                            },
                        );
                        assert(Seq::new(findings@.len(), |q: int| findings@[q]@) =~= before.push(
                            findings@.last()@,
                        ));
                    }
                },
                None => {},
            }
            assert(opens_finding(ls[i as int]));
            i = j;
        } else {
            i = i + 1;
        }
    }
    assert(Seq::new(findings@.len(), |k: int| findings@[k]@) + rejections_from(ls, i as int)
        =~= Seq::new(findings@.len(), |k: int| findings@[k]@));
    findings
}

/// One line of the rejections prompt.
pub open spec fn rejection_line(r: RejectedFinding) -> Seq<char> {
    "- "@ + r.file@ + " (lines "@ + decimal(r.line_start as nat) + "-"@ + decimal(r.line_end as nat)
        + ") ["@ + r.finding_type@ + "]: "@ + r.description@ + " [Rejection reason: "@ + r.reason@
        + "]\n"@
}

pub open spec fn rejection_lines(items: Seq<RejectedFinding>) -> Seq<char>
    decreases items.len(),
{
    if items.len() == 0 {
        seq![]
    } else {
        rejection_lines(items.drop_last()) + rejection_line(items.last())
    }
}

pub open spec fn rejections_header() -> Seq<char> {
    "\n\nPreviously reviewed and REJECTED findings (DO NOT report these again):\n"@
}

impl Rejections {
    pub fn new(items: Vec<RejectedFinding>) -> (r: Rejections)
        ensures
            r.items@ == items@,
    {
        Rejections { items }
    }

    /// A prompt block listing the rejected findings; empty when there are none.
    pub fn to_prompt(&self) -> (r: String)
        ensures
            r@ == if self.items@.len() == 0 {
                Seq::<char>::empty()
            } else {
                rejections_header() + rejection_lines(self.items@)
            },
    {
        if self.items.len() == 0 {
            return String::new();
        }
        let mut prompt = String::from_str(
            "\n\nPreviously reviewed and REJECTED findings (DO NOT report these again):\n",
        );
        let mut i: usize = 0;
        while i < self.items.len()
            invariant
                i <= self.items@.len(),
                prompt@ == rejections_header() + rejection_lines(self.items@.subrange(0, i as int)),
            decreases self.items.len() - i,
        {
            assert(self.items@.subrange(0, i + 1).drop_last() =~= self.items@.subrange(0, i as int));
            let r = &self.items[i];
            let ghost before = prompt@;
            prompt.append("- ");
            prompt.append(r.file.as_str());
            prompt.append(" (lines ");
            prompt.append(u64_text(r.line_start as u64).as_str());
            prompt.append("-");
            prompt.append(u64_text(r.line_end as u64).as_str());
            prompt.append(") [");
            prompt.append(r.finding_type.as_str());
            prompt.append("]: ");
            prompt.append(r.description.as_str());
            prompt.append(" [Rejection reason: ");
            prompt.append(r.reason.as_str());
            prompt.append("]\n");
            assert(prompt@ =~= before + rejection_line(self.items@[i as int]));
            i = i + 1;
        }
        assert(self.items@.subrange(0, i as int) =~= self.items@);
        prompt
    }
}

/// The inverse of `FNV_PRIME` modulo 2^64.
pub const FNV_PRIME_INVERSE: u64 = 0xce965057aff6957b;

proof fn lemma_undo_prime(x: u64)
    ensures
        ((x as nat * FNV_PRIME as nat) % 0x1_0000_0000_0000_0000nat) * (FNV_PRIME_INVERSE as nat)
            % 0x1_0000_0000_0000_0000nat == x as nat,
{
    let m: int = 0x1_0000_0000_0000_0000int;
    let p: int = FNV_PRIME as int;
    let q: int = FNV_PRIME_INVERSE as int;
    let xi: int = x as int;
    lemma_mul_mod_noop_left(xi * p, q, m);
    assert(p * q == 887285111055 * m + 1);
    assert(xi * p * q == m * (xi * 887285111055) + xi) by (nonlinear_arith)
        requires
            p * q == 887285111055 * m + 1,
    ;
    lemma_mod_multiples_vanish(xi * 887285111055, xi, m);
    lemma_small_mod(x as nat, m as nat);
}

proof fn lemma_prime_injective(x: u64, y: u64)
    requires
        x != y,
    ensures
        (x as nat * FNV_PRIME as nat) % 0x1_0000_0000_0000_0000nat != (y as nat * FNV_PRIME as nat)
            % 0x1_0000_0000_0000_0000nat,
{
    lemma_undo_prime(x);
    lemma_undo_prime(y);
}

proof fn lemma_step_injective_state(h1: u64, h2: u64, c: char)
    requires
        h1 != h2,
    ensures
        fnv_step(h1, c) != fnv_step(h2, c),
{
    let k = c as u32 as u64;
    let a = h1 ^ k;
    let b = h2 ^ k;
    assert(a != b) by (bit_vector)
        requires
            h1 != h2,
            a == h1 ^ k,
            b == h2 ^ k,
    ;
    lemma_prime_injective(a, b);
}

proof fn lemma_step_injective_char(h: u64, c1: char, c2: char)
    requires
        c1 != c2,
    ensures
        fnv_step(h, c1) != fnv_step(h, c2),
{
    let k1 = c1 as u32 as u64;
    let k2 = c2 as u32 as u64;
    assert(k1 != k2);
    let a = h ^ k1;
    let b = h ^ k2;
    assert(a != b) by (bit_vector)
        requires
            k1 != k2,
            a == h ^ k1,
            b == h ^ k2,
    ;
    lemma_prime_injective(a, b);
}

/// Changing one character of a text changes its hash.
proof fn lemma_hash_one_change(s: Seq<char>, p: int, c: char)
    requires
        0 <= p < s.len(),
        s[p] != c,
    ensures
        fnv_hash(s.update(p, c)) != fnv_hash(s),
    decreases s.len(),
{
    let t = s.update(p, c);
    if p == s.len() - 1 {
        assert(t.drop_last() =~= s.drop_last());
        lemma_step_injective_char(fnv_hash(s.drop_last()), c, s.last());
    } else {
        assert(t.drop_last() =~= s.drop_last().update(p, c));
        lemma_hash_one_change(s.drop_last(), p, c);
        lemma_step_injective_state(fnv_hash(t.drop_last()), fnv_hash(s.drop_last()), s.last());
    }
}

/// Changing character `k` of line `j` changes one character of the joined text.
proof fn lemma_join_update(ls: Seq<Seq<char>>, j: int, k: int, c: char) -> (p: int)
    requires
        0 <= j < ls.len(),
        0 <= k < ls[j].len(),
    ensures
        0 <= p < join_lines(ls).len(),
        join_lines(ls)[p] == ls[j][k],
        join_lines(ls.update(j, ls[j].update(k, c))) == join_lines(ls).update(p, c),
    decreases ls.len(),
{
    let u = ls.update(j, ls[j].update(k, c));
    if ls.len() == 1 {
        k
    } else if j == ls.len() - 1 {
        assert(u.drop_last() =~= ls.drop_last());
        let head = join_lines(ls.drop_last()) + seq!['\n'];
        assert(join_lines(u) =~= join_lines(ls).update(head.len() + k, c));
        head.len() + k
    } else {
        assert(u.drop_last() =~= ls.drop_last().update(j, ls[j].update(k, c)));
        let p = lemma_join_update(ls.drop_last(), j, k, c);
        assert(join_lines(u) =~= join_lines(ls).update(p, c));
        p
    }
}

/// Changing one character of a line inside lines `start..=end` changes the
/// hash of that range.
pub proof fn law_edit_changes_hash(lines: Seq<Seq<char>>, start: int, end: int, j: int, k: int, c: char)
    requires
        1 <= start,
        start - 1 <= j,
        j < end,
        j < lines.len(),
        0 <= k < lines[j].len(),
        lines[j][k] != c,
    ensures
        range_hash(lines, start, end) is Some,
        range_hash(lines.update(j, lines[j].update(k, c)), start, end) is Some,
        range_hash(lines.update(j, lines[j].update(k, c)), start, end) != range_hash(lines, start, end),
{
    let u = lines.update(j, lines[j].update(k, c));
    let e = if end < lines.len() {
        end
    } else {
        lines.len() as int
    };
    let slice = lines.subrange(start - 1, e);
    assert(u.subrange(start - 1, e) =~= slice.update(j - (start - 1), slice[j - (start - 1)].update(k, c)));
    let p = lemma_join_update(slice, j - (start - 1), k, c);
    lemma_hash_one_change(join_lines(slice), p, c);
}

proof fn lemma_file_index_same_paths(f1: Seq<SourceFile>, f2: Seq<SourceFile>, path: Seq<char>)
    requires
        f1.len() == f2.len(),
        forall|i: int| 0 <= i < f1.len() ==> f1[i].path@ == f2[i].path@,
    ensures
        file_index(f1, path) == file_index(f2, path),
    decreases f1.len(),
{
    if f1.len() > 0 {
        assert forall|i: int| 0 <= i < f1.len() - 1 implies f1.drop_last()[i].path@ == f2.drop_last()[i].path@ by {
            assert(f1.drop_last()[i] == f1[i] && f2.drop_last()[i] == f2[i]);
        }
        lemma_file_index_same_paths(f1.drop_last(), f2.drop_last(), path);
    }
}

proof fn lemma_active_members(items: Seq<Suppression>, now: int, files: Option<Seq<SourceFile>>, s: Suppression)
    requires
        !is_active(s, now, files),
    ensures
        !active_of(items, now, files).contains(s),
    decreases items.len(),
{
    if items.len() > 0 {
        lemma_active_members(items.drop_last(), now, files, s);
        let prev = active_of(items.drop_last(), now, files);
        if is_active(items.last(), now, files) {
            assert forall|i: int| 0 <= i < prev.len() + 1 implies prev.push(items.last())[i] != s by {
                if i < prev.len() {
                    assert(prev.push(items.last())[i] == prev[i]);
                }
            }
        }
    }
}

/// A suppression whose hash was taken over its lines stays active while the
/// file is unchanged; once one character of a line in its range changes, it
/// is no longer active, and a cleanup removes it.
pub proof fn law_edit_deactivates(
    items: Seq<Suppression>,
    s: Suppression,
    files: Seq<SourceFile>,
    f: int,
    edited: SourceFile,
    j: int,
    k: int,
    c: char,
    now: int,
)
    requires
        file_index(files, s.file@) == Some(f),
        s.content_hash == range_hash(line_views(files[f].lines@), s.line_start as int, s.line_end as int),
        match s.expires {
            Some(t) => now <= t,
            None => true,
        },
        edited.path@ == files[f].path@,
        s.line_start >= 1,
        s.line_start - 1 <= j,
        j < s.line_end,
        j < line_views(files[f].lines@).len(),
        0 <= k < line_views(files[f].lines@)[j].len(),
        line_views(files[f].lines@)[j][k] != c,
        line_views(edited.lines@) == line_views(files[f].lines@).update(
            j,
            line_views(files[f].lines@)[j].update(k, c),
        ),
    ensures
        is_active(s, now, Some(files)),
        !is_active(s, now, Some(files.update(f, edited))),
        !active_of(items, now, Some(files.update(f, edited))).contains(s),
{
    lemma_file_index_bound(files, s.file@);
    let files2 = files.update(f, edited);
    lemma_file_index_same_paths(files, files2, s.file@);
    law_edit_changes_hash(line_views(files[f].lines@), s.line_start as int, s.line_end as int, j, k, c);
    assert(files2[f] == edited);
    lemma_active_members(items, now, Some(files2), s);
}

} // verus!
