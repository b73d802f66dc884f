//! Repository names and unified diffs.
use vstd::prelude::*;
use vstd::string::*;

use crate::models::ReviewError;
use crate::text::{
    chars_of, has_prefix, lemma_split_nonempty, lines_of, lines_spec, parse_u32, push_char,
    split_all, split_parts, starts_with, string_of, strip_prefixes, strip_prefixes_of, strip_start,
    strip_start_char, u32_text, views,
};

verus! {

/// A file changed in a pull request.
#[derive(Debug, Clone)]
pub struct PrFile {
    pub filename: String,
    pub status: String,
    pub additions: u64,
    pub deletions: u64,
    pub changes: u64,
}

/// Splits `owner/repo` into its two names.
pub fn parse_repo(repo: &str) -> (r: Result<(String, String), ReviewError>)
    ensures
        ({
            let parts = split_all(repo@, "/"@);
            if parts.len() == 2 {
                r is Ok && (r->Ok_0).0@ == parts[0] && (r->Ok_0).1@ == parts[1]
            } else {
                r is Err && match r->Err_0 {
                    ReviewError::InvalidRepo(name) => name@ == repo@,
                    _ => false,
                }
            }
        }),
{
    let parts = split_parts(&chars_of(repo), &chars_of("/"));
    if parts.len() != 2 {
        return Err(ReviewError::InvalidRepo(repo.to_owned()));
    }
    assert(parts@[0]@ == views(parts@)[0] && parts@[1]@ == views(parts@)[1]);
    Ok((string_of(&parts[0]), string_of(&parts[1])))
}

/// One hunk of a unified diff.
#[derive(Debug, Clone)]
pub struct DiffHunk {
    pub old_start: u32,
    pub old_count: u32,
    pub new_start: u32,
    pub new_count: u32,
    pub content: String,
}

/// One file of a unified diff.
#[derive(Debug, Clone)]
pub struct DiffFile {
    pub path: String,
    pub old_path: Option<String>,
    pub hunks: Vec<DiffHunk>,
}

pub struct HunkView {
    pub old_start: u32,
    pub old_count: u32,
    pub new_start: u32,
    pub new_count: u32,
    pub content: Seq<char>,
}

pub struct FileView {
    pub path: Seq<char>,
    pub hunks: Seq<HunkView>,
}

impl View for DiffHunk {
    type V = HunkView;

    open spec fn view(&self) -> HunkView {
        HunkView {
            old_start: self.old_start,
            old_count: self.old_count,
            new_start: self.new_start,
            new_count: self.new_count,
            content: self.content@,
        }
    }
}

impl View for DiffFile {
    type V = FileView;

    open spec fn view(&self) -> FileView {
        FileView { path: self.path@, hunks: Seq::new(self.hunks@.len(), |i: int| self.hunks@[i]@) }
    }
}

/// A count field of a hunk header: the number after the comma, 1 when absent
/// or unreadable.
pub open spec fn count_field(p: Seq<Seq<char>>) -> u32 {
    if p.len() > 1 {
        match u32_text(p[1]) {
            Some(x) => x,
            None => 1,
        }
    } else {
        1
    }
}

/// The numbers of a header `@@ -a,b +c,d @@`: a, b, c, d.
pub open spec fn hunk_numbers(line: Seq<char>) -> Option<(u32, u32, u32, u32)> {
    let l = strip_prefixes(line, "@@ "@);
    let head = split_all(l, " @@"@)[0];
    let parts = split_all(head, " "@);
    if parts.len() < 2 {
        None
    } else {
        let op = split_all(strip_start(parts[0], '-'), ","@);
        let np = split_all(strip_start(parts[1], '+'), ","@);
        match (u32_text(op[0]), u32_text(np[0])) {
            (Some(a), Some(c)) => Some((a, count_field(op), c, count_field(np))),
            _ => None,
        }
    }
}

fn count_of(p: &Vec<Vec<char>>) -> (r: u32)
    ensures
        r == count_field(views(p@)),
{
    if p.len() > 1 {
        assert(p@[1]@ == views(p@)[1]);
        match parse_u32(&p[1], 0, p[1].len()) {
            Some(x) => {
                assert(p@[1]@.subrange(0, p@[1]@.len() as int) =~= p@[1]@);
                x
            },
            None => {
                assert(p@[1]@.subrange(0, p@[1]@.len() as int) =~= p@[1]@);
                1
            },
        }
    } else {
        1
    }
}

fn start_of(p: &Vec<Vec<char>>) -> (r: Option<u32>)
    requires
        p@.len() >= 1,
    ensures
        r == u32_text(views(p@)[0]),
{
    assert(p@[0]@ == views(p@)[0]);
    assert(p@[0]@.subrange(0, p@[0]@.len() as int) =~= p@[0]@);
    parse_u32(&p[0], 0, p[0].len())
}

/// Reads a header `@@ -a,b +c,d @@`; a missing count reads as 1.
pub fn parse_hunk_header(line: &str) -> (r: Option<DiffHunk>)
    ensures
        match hunk_numbers(line@) {
            Some(n) => r is Some && r->0.old_start == n.0 && r->0.old_count == n.1
                && r->0.new_start == n.2 && r->0.new_count == n.3 && r->0.content@.len() == 0,
            None => r is None,
        },
{
    let l = strip_prefixes_of(&chars_of(line), &chars_of("@@ "));
    let pieces = split_parts(&l, &chars_of(" @@"));
    proof { lemma_split_nonempty(l@, " @@"@); }
    assert(pieces@[0]@ == views(pieces@)[0]);
    let parts = split_parts(&pieces[0], &chars_of(" "));
    if parts.len() < 2 {
        return None;
    }
    assert(parts@[0]@ == views(parts@)[0] && parts@[1]@ == views(parts@)[1]);
    let op = split_parts(&strip_start_char(&parts[0], '-'), &chars_of(","));
    let np = split_parts(&strip_start_char(&parts[1], '+'), &chars_of(","));
    proof {
        lemma_split_nonempty(strip_start(views(parts@)[0], '-'), ","@);
        lemma_split_nonempty(strip_start(views(parts@)[1], '+'), ","@);
    }
    let old_start = match start_of(&op) {
        Some(x) => x,
        None => return None,
    };
    let old_count = count_of(&op);
    let new_start = match start_of(&np) {
        Some(x) => x,
        None => return None,
    };
    let new_count = count_of(&np);
    Some(DiffHunk { old_start, old_count, new_start, new_count, content: String::new() })
}

/// Where a walk over a diff's lines stands.
pub struct DiffState {
    pub files: Seq<FileView>,
    pub file: Option<FileView>,
    pub hunk: Option<HunkView>,
    pub content: Seq<char>,
}

/// `f` with the open hunk, if any, closed on `content`.
pub open spec fn close_hunk(f: FileView, h: Option<HunkView>, content: Seq<char>) -> FileView {
    match h {
        Some(h) => FileView { path: f.path, hunks: f.hunks.push(HunkView { content, ..h }) },
        None => f,
    }
}

/// One line of the walk: `diff --git` closes the open file and opens the one
/// it names; `@@` closes the open hunk and opens the one its header reads;
/// any other line, inside a hunk, is part of its content.
pub open spec fn diff_step(st: DiffState, line: Seq<char>) -> DiffState {
    if starts_with(line, "diff --git"@) {
        let files = match st.file {
            Some(f) => st.files.push(close_hunk(f, st.hunk, st.content)),
            None => st.files,
        };
        let hunk = match st.file {
            Some(f) => None,
            None => st.hunk,
        };
        let parts = split_all(line, " "@);
        let file = if parts.len() >= 4 {
            Some(FileView { path: strip_prefixes(parts[3], "b/"@), hunks: seq![] })
        } else {
            None
        };
        DiffState { files, file, hunk, content: seq![] }
    } else if starts_with(line, "@@"@) {
        let file = match st.file {
            Some(f) => Some(close_hunk(f, st.hunk, st.content)),
            None => None,
        };
        let hunk = match st.file {
            Some(f) => None,
            None => st.hunk,
        };
        let hunk = match hunk_numbers(line) {
            Some(n) => Some(
                HunkView {
                    old_start: n.0,
                    old_count: n.1,
                    new_start: n.2,
                    new_count: n.3,
                    content: seq![],
                },
            ),
            None => hunk,
        };
        DiffState { files: st.files, file, hunk, content: seq![] }
    } else if st.hunk is Some {
        DiffState { content: st.content + line + seq!['\n'], ..st }
    } else {
        st
    }
}

pub open spec fn diff_walk(lines: Seq<Seq<char>>) -> DiffState
    decreases lines.len(),
{
    if lines.len() == 0 {
        DiffState { files: seq![], file: None, hunk: None, content: seq![] }
    } else {
        diff_step(diff_walk(lines.drop_last()), lines.last())
    }
}

/// The files of a diff, the open file and hunk closed at the end.
pub open spec fn diff_files(diff: Seq<char>) -> Seq<FileView> {
    let st = diff_walk(lines_spec(diff));
    match st.file {
        Some(f) => st.files.push(close_hunk(f, st.hunk, st.content)),
        None => st.files,
    }
}

pub open spec fn files_view(v: Seq<DiffFile>) -> Seq<FileView> {
    Seq::new(v.len(), |i: int| v[i]@)
}

pub open spec fn opt_file_view(f: Option<DiffFile>) -> Option<FileView> {
    match f {
        Some(f) => Some(f@),
        None => None,
    }
}

pub open spec fn opt_hunk_view(h: Option<DiffHunk>) -> Option<HunkView> {
    match h {
        Some(h) => Some(h@),
        None => None,
    }
}

fn close_hunk_into(file: &mut DiffFile, hunk: Option<DiffHunk>, content: &String)
    ensures
        final(file)@ == close_hunk(old(file)@, opt_hunk_view(hunk), content@),
        final(file).old_path == old(file).old_path,
{
    match hunk {
        Some(mut h) => {
            h.content = content.clone();
            file.hunks.push(h);
            assert(file@.hunks =~= old(file)@.hunks.push(h@));
        },
        None => {},
    }
}

/// Reads a unified diff into its files and their hunks.
pub fn parse_diff(diff: &str) -> (r: Vec<DiffFile>)
    ensures
        files_view(r@) == diff_files(diff@),
        forall|i: int| 0 <= i < r@.len() ==> (#[trigger] r@[i]).old_path is None,
{
    let lines = lines_of(&chars_of(diff));
    let ghost ls = lines_spec(diff@);
    let mut files: Vec<DiffFile> = Vec::new();
    let mut current_file: Option<DiffFile> = None;
    let mut current_hunk: Option<DiffHunk> = None;
    let mut hunk_content = String::new();
    let git = chars_of("diff --git");
    let at = chars_of("@@");
    let mut i: usize = 0;
    assert(files_view(files@) =~= Seq::<FileView>::empty());
    assert(hunk_content@ =~= Seq::<char>::empty());
    while i < lines.len()
        invariant
            i <= lines@.len() == ls.len(),
            ls == lines_spec(diff@),
            forall|k: int| 0 <= k < lines@.len() ==> #[trigger] lines@[k]@ == ls[k],
            git@ == "diff --git"@,
            at@ == "@@"@,
            diff_walk(ls.subrange(0, i as int)) == (DiffState {
                files: files_view(files@),
                file: opt_file_view(current_file),
                hunk: opt_hunk_view(current_hunk),
                content: hunk_content@,
            }),
            forall|k: int| 0 <= k < files@.len() ==> (#[trigger] files@[k]).old_path is None,
            current_file is Some ==> current_file->0.old_path is None,
        decreases lines@.len() - i,
    {
        let line = &lines[i];
        let ghost st = diff_walk(ls.subrange(0, i as int));
        assert(ls.subrange(0, i + 1).drop_last() =~= ls.subrange(0, i as int));
        assert(ls.subrange(0, i + 1).last() == line@);
        if has_prefix(line, &git) {
            match current_file.take() {
                Some(mut file) => {
                    let h = current_hunk.take();
                    close_hunk_into(&mut file, h, &hunk_content);
                    let ghost before = files_view(files@);
                    files.push(file);
                    assert(files_view(files@) =~= before.push(file@));
                },
                None => {},
            }
            hunk_content = String::new();
            assert(hunk_content@ =~= Seq::<char>::empty());
            let parts = split_parts(line, &chars_of(" "));
            if parts.len() >= 4 {
                assert(parts@[3]@ == views(parts@)[3]);
                let path = strip_prefixes_of(&parts[3], &chars_of("b/"));
                let f = DiffFile { path: string_of(&path), old_path: None, hunks: Vec::new() };
                assert(f@.hunks =~= Seq::<HunkView>::empty());
                current_file = Some(f);
            }
        } else if has_prefix(line, &at) {
            match current_file.take() {
                Some(mut file) => {
                    let h = current_hunk.take();
                    close_hunk_into(&mut file, h, &hunk_content);
                    current_file = Some(file);
                },
                None => {},
            }
            hunk_content = String::new();
            assert(hunk_content@ =~= Seq::<char>::empty());
            match parse_hunk_header(string_of(line).as_str()) {
                Some(h) => {
                    assert(h@.content =~= Seq::<char>::empty());
                    current_hunk = Some(h);
                },
                None => {},
            }
        } else if current_hunk.is_some() {
            let ghost before = hunk_content@;
            let mut j: usize = 0;
            while j < line.len()
                invariant
                    j <= line@.len(),
                    hunk_content@ == before + line@.subrange(0, j as int),
                decreases line@.len() - j,
            {
                push_char(&mut hunk_content, line[j]);
                j = j + 1;
                assert(hunk_content@ =~= before + line@.subrange(0, j as int));
            }
            push_char(&mut hunk_content, '\n');
            assert(line@.subrange(0, j as int) =~= line@);
            assert(hunk_content@ =~= st.content + line@ + seq!['\n']);
        }
        assert(diff_step(st, line@) == (DiffState {
            files: files_view(files@),
            file: opt_file_view(current_file),
            hunk: opt_hunk_view(current_hunk),
            content: hunk_content@,
        }));
        i = i + 1;
    }
    assert(ls.subrange(0, i as int) =~= ls);
    match current_file {
        Some(mut file) => {
            close_hunk_into(&mut file, current_hunk, &hunk_content);
            let ghost before = files_view(files@);
            files.push(file);
            assert(files_view(files@) =~= before.push(file@));
        },
        None => {},
    }
    files
}

} // verus!
