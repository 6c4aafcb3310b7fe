//! Reading `git diff` output: changed files, their changed line ranges and
//! hunks; filters and line mappings built from them.

use vstd::prelude::*;
use crate::rule::SpanPolicy;
use crate::assoc::{
    assoc_map, copy_items, find_last_key, lemma_assoc_absent, lemma_assoc_at,
    lemma_assoc_update,
};
use crate::text::{
    chars_of, copy_range, find_from, find_sub, has_prefix, lemma_find_from_bounds, lines_spec, parse_usize,
    parse_usize_spec, split_lines, starts_with, string_of, trim_prefix_repeated,
    trim_start_matches, vviews,
};

verus! {

broadcast use vstd::string::group_string_axioms;

/// Errors of the git integration.
#[derive(Debug)]
pub enum GitDiffError {
    GitCommand(String),
    NotARepo(String),
    InvalidSpec(String),
    Io(String),
}

impl GitDiffError {
    /// The error's message.
    pub fn message(&self) -> (r: String)
        ensures
            r@ == match self {
                GitDiffError::GitCommand(m) => "git command failed: "@ + m@,
                GitDiffError::NotARepo(m) => "not a git repository: "@ + m@,
                GitDiffError::InvalidSpec(m) => "invalid diff spec: "@ + m@,
                GitDiffError::Io(m) => "io error: "@ + m@,
            },
    {
        let mut s = String::new();
        match self {
            GitDiffError::GitCommand(m) => {
                crate::text::append_str(&mut s, "git command failed: ");
                crate::text::append_str(&mut s, m.as_str());
            },
            GitDiffError::NotARepo(m) => {
                crate::text::append_str(&mut s, "not a git repository: ");
                crate::text::append_str(&mut s, m.as_str());
            },
            GitDiffError::InvalidSpec(m) => {
                crate::text::append_str(&mut s, "invalid diff spec: ");
                crate::text::append_str(&mut s, m.as_str());
            },
            GitDiffError::Io(m) => {
                crate::text::append_str(&mut s, "io error: ");
                crate::text::append_str(&mut s, m.as_str());
            },
        }
        s
    }
}

/// What `std::path::Path::parent` gives for a path, taken by characters
/// (`None` for a root or an empty path).
pub uninterp spec fn path_parent(p: Seq<char>) -> Option<Seq<char>>;

/// The directory holding `p`.
///
/// Trusted: `std::path::Path::parent`, which drops the last component of a
/// path (a purely lexical operation, so a function of the path alone, named
/// [`path_parent`]); the result is a shorter prefix of the path. `None` for a
/// root or an empty path.
#[verifier::external_body]
fn parent_dir(p: &String) -> (r: Option<String>)
    ensures
        match r {
            Some(q) => path_parent(p@) == Some(q@),
            None => path_parent(p@) is None,
        },
        r matches Some(q) ==> has_prefix(p@, q@) && q@.len() < p@.len(),
{
    std::path::Path::new(p.as_str()).parent().and_then(|q| q.to_str()).map(|q| q.to_string())
}

/// The `k`-th directory up from `start`: `start` itself, then each parent in
/// turn; `None` past the top.
pub open spec fn ancestor(start: Seq<char>, k: nat) -> Option<Seq<char>>
    decreases k,
{
    if k == 0 {
        Some(start)
    } else {
        match ancestor(start, (k - 1) as nat) {
            Some(d) => path_parent(d),
            None => None,
        }
    }
}

/// Whether the probe was asked about directory `d` and answered no.
pub open spec fn refused<F: Fn(&String) -> bool>(probe: F, d: Seq<char>) -> bool {
    exists|p: &String| p@ == d && #[trigger] probe.ensures((p,), false)
}

proof fn lemma_ancestor_none(s: Seq<char>, k: nat, j: nat)
    requires
        ancestor(s, k) is None,
        k <= j,
    ensures
        ancestor(s, j) is None,
    decreases j - k,
{
    if j > k {
        lemma_ancestor_none(s, k, (j - 1) as nat);
    }
}

/// The nearest directory, from `start` up through its parents, for which
/// `has_git_dir` holds (a directory with a `.git` entry). The probe is asked
/// about `start`, then about each parent in turn, until it answers yes; the
/// error comes when it has answered no for every one of them.
pub fn find_git_root<F: Fn(&String) -> bool>(start: &str, has_git_dir: F) -> (r: Result<String, GitDiffError>)
    requires
        forall|p: &String| #[trigger] has_git_dir.requires((p,)),
    ensures
        r matches Ok(root) ==> has_prefix(start@, root@) && has_git_dir.ensures((&root,), true)
            && exists|k: nat|
            #![trigger ancestor(start@, k)]
            ancestor(start@, k) == Some(root@) && forall|j: nat|
                j < k ==> (#[trigger] ancestor(start@, j) matches Some(d) && refused(has_git_dir, d)),
        r matches Err(e) ==> (e matches GitDiffError::NotARepo(s) && s@ == start@) && forall|k: nat|
            #[trigger] ancestor(start@, k) matches Some(d) ==> refused(has_git_dir, d),
{
    let mut current = String::from_str(start);
    let ghost mut k: nat = 0;
    proof {
        assert(start@.take(start@.len() as int) == start@);
    }
    loop
        invariant
            forall|p: &String| #[trigger] has_git_dir.requires((p,)),
            has_prefix(start@, current@),
            ancestor(start@, k) == Some(current@),
            forall|j: nat| j < k ==> (#[trigger] ancestor(start@, j) matches Some(d) && refused(has_git_dir, d)),
        decreases current@.len(),
    {
        if has_git_dir(&current) {
            return Ok(current);
        }
        assert(refused(has_git_dir, current@));
        match parent_dir(&current) {
            Some(p) => {
                proof {
                    assert(start@.take(p@.len() as int) == current@.take(p@.len() as int));
                    assert(ancestor(start@, k + 1) == Some(p@));
                    k = k + 1;
                }
                current = p;
            },
            None => {
                proof {
                    assert(ancestor(start@, k + 1) is None);
                    assert forall|j: nat| #[trigger] ancestor(start@, j) is Some implies refused(
                        has_git_dir,
                        ancestor(start@, j)->0,
                    ) by {
                        if j > k {
                            lemma_ancestor_none(start@, k + 1, j);
                        }
                    }
                }
                return Err(GitDiffError::NotARepo(String::from_str(start)));
            },
        }
    }
}

/// How a file changed.
#[derive(Debug, Clone, Copy, PartialEq, Eq, Structural)]
pub enum DiffKind {
    Added,
    Modified,
    Deleted,
    Renamed,
}

/// An inclusive, 1-based line range.
#[derive(Debug, Clone, Copy, PartialEq, Eq, Structural)]
pub struct LineRange {
    pub start: usize,
    pub end: usize,
}

impl LineRange {
    /// Whether `line` lies in the range.
    pub fn contains(&self, line: usize) -> (r: bool)
        ensures
            r == (self.start <= line && line <= self.end),
    {
        line >= self.start && line <= self.end
    }
}

/// Old and new line spans of one change block (1-based, lengths may be 0).
///
/// `old_len == 0` is a pure insertion before old line `old_start`;
/// `new_len == 0` is a pure deletion.
#[derive(Debug, Clone, Copy, PartialEq, Eq, Structural)]
pub struct Hunk {
    pub old_start: usize,
    pub old_len: usize,
    pub new_start: usize,
    pub new_len: usize,
}

/// One changed file of a diff.
#[derive(Debug)]
pub struct FileDiff {
    /// Path relative to the repository root.
    pub path: String,
    /// How it changed.
    pub kind: DiffKind,
    /// Changed line ranges on the new side.
    pub line_ranges: Vec<LineRange>,
    /// Hunks, old and new spans.
    pub hunks: Vec<Hunk>,
    /// Whether the file is new.
    pub is_new: bool,
}

/// Abstract value of a [`FileDiff`].
pub struct FileDiffV {
    pub path: Seq<char>,
    pub kind: DiffKind,
    pub line_ranges: Seq<LineRange>,
    pub hunks: Seq<Hunk>,
    pub is_new: bool,
}

impl View for FileDiff {
    type V = FileDiffV;

    open spec fn view(&self) -> FileDiffV {
        FileDiffV {
            path: self.path@,
            kind: self.kind,
            line_ranges: self.line_ranges@,
            hunks: self.hunks@,
            is_new: self.is_new,
        }
    }
}

/// The abstract values of a list of file diffs.
pub open spec fn diff_views(s: Seq<FileDiff>) -> Seq<FileDiffV> {
    s.map_values(|d: FileDiff| d@)
}

/// What `start[,len]` denotes; a missing length is 1.
pub open spec fn range_spec(s: Seq<char>) -> Option<(usize, usize)> {
    match find_from(s, seq![','], 0) {
        Some(i) => match (parse_usize_spec(s.take(i)), parse_usize_spec(s.skip(i + 1))) {
            (Some(a), Some(b)) => Some((a as usize, b as usize)),
            _ => None,
        },
        None => match parse_usize_spec(s) {
            Some(a) => Some((a as usize, 1usize)),
            None => None,
        },
    }
}

/// The hunk a header line `@@ -old_start[,old_len] +new_start[,new_len] @@ ...` gives.
pub open spec fn hunk_header_spec(line: Seq<char>) -> Option<Hunk> {
    if !has_prefix(line, "@@ "@) {
        None
    } else {
        let l = line.skip(3);
        match find_from(l, " +"@, 0) {
            None => None,
            Some(p) => {
                let old_part = l.take(p);
                let rest = l.skip(p + 2);
                let end = match find_from(rest, seq![' '], 0) {
                    Some(e) => e,
                    None => rest.len() as int,
                };
                let new_part = rest.take(end);
                if !has_prefix(old_part, seq!['-']) {
                    None
                } else {
                    match (range_spec(old_part.skip(1)), range_spec(new_part)) {
                        (Some((os, ol)), Some((ns, nl))) => Some(
                            Hunk { old_start: os, old_len: ol, new_start: ns, new_len: nl },
                        ),
                        _ => None,
                    }
                }
            },
        }
    }
}

/// The path a `+++ b/<path>` (or `--- ...`) line names: leading `"+++ "`
/// repetitions and one `"b/"` are removed.
pub open spec fn diff_path_spec(line: Seq<char>) -> Seq<char> {
    let l = trim_start_matches(line, "+++ "@);
    if has_prefix(l, "b/"@) {
        l.skip(2)
    } else {
        l
    }
}

fn parse_range(s: &[char]) -> (r: Option<(usize, usize)>)
    ensures
        r == range_spec(s@),
{
    let comma: Vec<char> = vec![','];
    assert(comma@ == seq![',']);
    proof {
        lemma_find_from_bounds(s@, seq![','], 0);
    }
    match find_sub(s, comma.as_slice(), 0) {
        Some(i) => {
            assert(find_from(s@, comma@, 0) == Some(i as int));
            let n = s.len();
            assert(i + 1 <= n);
            let a = copy_range(s, 0, i);
            let b = copy_range(s, i + 1, n);
            assert(a@ == s@.take(i as int));
            assert(b@ == s@.skip(i + 1));
            match (parse_usize(a.as_slice()), parse_usize(b.as_slice())) {
                (Some(x), Some(y)) => Some((x, y)),
                _ => None,
            }
        },
        None => match parse_usize(s) {
            Some(x) => Some((x, 1)),
            None => None,
        },
    }
}

/// Parses a hunk header line.
fn hunk_header_of(line: &[char]) -> (r: Option<Hunk>)
    ensures
        r == hunk_header_spec(line@),
{
    let pre = chars_of("@@ ");
    if !starts_with(line, pre.as_slice()) {
        return None;
    }
    proof {
        reveal_strlit("@@ ");
    }
    let l = copy_range(line, 3, line.len());
    assert(l@ == line@.skip(3));
    let plus = chars_of(" +");
    proof {
        reveal_strlit(" +");
        lemma_find_from_bounds(l@, " +"@, 0);
    }
    let p = match find_sub(l.as_slice(), plus.as_slice(), 0) {
        Some(p) => p,
        None => return None,
    };
    let old_part = copy_range(l.as_slice(), 0, p);
    let rest = copy_range(l.as_slice(), p + 2, l.len());
    assert(old_part@ == l@.take(p as int));
    assert(rest@ == l@.skip(p + 2));
    let sp: Vec<char> = vec![' '];
    assert(sp@ == seq![' ']);
    proof {
        lemma_find_from_bounds(rest@, seq![' '], 0);
    }
    let end = match find_sub(rest.as_slice(), sp.as_slice(), 0) {
        Some(e) => e,
        None => rest.len(),
    };
    let new_part = copy_range(rest.as_slice(), 0, end);
    assert(new_part@ == rest@.take(end as int));
    let dash: Vec<char> = vec!['-'];
    assert(dash@ == seq!['-']);
    if !starts_with(old_part.as_slice(), dash.as_slice()) {
        return None;
    }
    let old_body = copy_range(old_part.as_slice(), 1, old_part.len());
    assert(old_body@ == old_part@.skip(1));
    match (parse_range(old_body.as_slice()), parse_range(new_part.as_slice())) {
        (Some((os, ol)), Some((ns, nl))) => Some(
            Hunk { old_start: os, old_len: ol, new_start: ns, new_len: nl },
        ),
        _ => None,
    }
}

/// Parses a hunk header line `@@ -a,b +c,d @@ ...`; an omitted length is 1.
pub fn parse_hunk_header(line: &str) -> (r: Option<Hunk>)
    ensures
        r == hunk_header_spec(line@),
{
    let cs = chars_of(line);
    hunk_header_of(cs.as_slice())
}

fn parse_diff_path(line: &[char]) -> (r: Vec<char>)
    ensures
        r@ == diff_path_spec(line@),
{
    let pre = chars_of("+++ ");
    proof {
        reveal_strlit("+++ ");
    }
    let l = trim_prefix_repeated(line, pre.as_slice());
    let b = chars_of("b/");
    if starts_with(l.as_slice(), b.as_slice()) {
        proof {
            reveal_strlit("b/");
        }
        copy_range(l.as_slice(), 2, l.len())
    } else {
        l
    }
}

/// Which kind of line of a diff a line is, in the order the lines are tested.
#[derive(Debug, Clone, Copy, PartialEq, Eq, Structural)]
pub enum DiffLine {
    FileStart,
    OldPath,
    NewPath,
    HunkHeader,
    NewFileMode,
    DeletedFileMode,
    Rename,
    Other,
}

/// How a diff line is classified.
pub open spec fn diff_line_spec(line: Seq<char>) -> DiffLine {
    if has_prefix(line, "diff --git"@) || has_prefix(line, "diff --cc"@) {
        DiffLine::FileStart
    } else if has_prefix(line, "--- "@) {
        DiffLine::OldPath
    } else if has_prefix(line, "+++ "@) {
        DiffLine::NewPath
    } else if has_prefix(line, "@@ "@) {
        DiffLine::HunkHeader
    } else if has_prefix(line, "new file mode"@) {
        DiffLine::NewFileMode
    } else if has_prefix(line, "deleted file mode"@) {
        DiffLine::DeletedFileMode
    } else if has_prefix(line, "rename from"@) || has_prefix(line, "rename to"@) {
        DiffLine::Rename
    } else {
        DiffLine::Other
    }
}

/// Classifies a diff line.
pub fn classify_diff_line(line: &[char]) -> (r: DiffLine)
    ensures
        r == diff_line_spec(line@),
{
    let a = chars_of("diff --git");
    let b = chars_of("diff --cc");
    if starts_with(line, a.as_slice()) || starts_with(line, b.as_slice()) {
        return DiffLine::FileStart;
    }
    let c = chars_of("--- ");
    if starts_with(line, c.as_slice()) {
        return DiffLine::OldPath;
    }
    let d = chars_of("+++ ");
    if starts_with(line, d.as_slice()) {
        return DiffLine::NewPath;
    }
    let e = chars_of("@@ ");
    if starts_with(line, e.as_slice()) {
        return DiffLine::HunkHeader;
    }
    let f = chars_of("new file mode");
    if starts_with(line, f.as_slice()) {
        return DiffLine::NewFileMode;
    }
    let g = chars_of("deleted file mode");
    if starts_with(line, g.as_slice()) {
        return DiffLine::DeletedFileMode;
    }
    let h = chars_of("rename from");
    let i = chars_of("rename to");
    if starts_with(line, h.as_slice()) || starts_with(line, i.as_slice()) {
        return DiffLine::Rename;
    }
    DiffLine::Other
}

/// The state of a scan over diff lines: finished files and the open one.
pub struct DiffScan {
    pub done: Seq<FileDiffV>,
    pub cur: Option<FileDiffV>,
}

/// A file entry with no ranges and no hunks yet.
pub open spec fn fresh_file(path: Seq<char>, kind: DiffKind, is_new: bool) -> FileDiffV {
    FileDiffV { path, kind, line_ranges: seq![], hunks: seq![], is_new }
}

/// `f` with the hunk `h` appended, and its new-side range if it is not empty.
pub open spec fn add_hunk(f: FileDiffV, h: Hunk) -> FileDiffV {
    FileDiffV {
        hunks: f.hunks.push(h),
        line_ranges: if h.new_len > 0 {
            f.line_ranges.push(
                LineRange { start: h.new_start, end: (h.new_start + h.new_len - 1) as usize },
            )
        } else {
            f.line_ranges
        },
        ..f
    }
}

/// `o` with its kind replaced, if it is an open file.
pub open spec fn with_kind(o: Option<FileDiffV>, kind: DiffKind) -> Option<FileDiffV> {
    match o {
        Some(f) => Some(FileDiffV { kind, ..f }),
        None => None,
    }
}

/// The finished files plus the open one, if any.
pub open spec fn scan_files(st: DiffScan) -> Seq<FileDiffV> {
    match st.cur {
        Some(f) => st.done.push(f),
        None => st.done,
    }
}

/// One step of the scan.
pub open spec fn diff_step(st: DiffScan, line: Seq<char>) -> DiffScan {
    match diff_line_spec(line) {
        DiffLine::FileStart => DiffScan { done: scan_files(st), cur: None },
        DiffLine::OldPath => match st.cur {
            None => DiffScan {
                cur: Some(fresh_file(diff_path_spec(line), DiffKind::Modified, false)),
                ..st
            },
            Some(_) => st,
        },
        DiffLine::NewPath => match st.cur {
            Some(f) => DiffScan { cur: Some(FileDiffV { path: diff_path_spec(line), ..f }), ..st },
            None => DiffScan {
                cur: Some(fresh_file(diff_path_spec(line), DiffKind::Added, true)),
                ..st
            },
        },
        DiffLine::HunkHeader => match (st.cur, hunk_header_spec(line)) {
            (Some(f), Some(h)) => DiffScan { cur: Some(add_hunk(f, h)), ..st },
            _ => st,
        },
        DiffLine::NewFileMode => match st.cur {
            Some(f) => DiffScan {
                cur: Some(FileDiffV { is_new: true, kind: DiffKind::Added, ..f }),
                ..st
            },
            None => DiffScan { cur: Some(fresh_file(seq![], DiffKind::Added, true)), ..st },
        },
        DiffLine::DeletedFileMode => DiffScan { cur: with_kind(st.cur, DiffKind::Deleted), ..st },
        DiffLine::Rename => DiffScan { cur: with_kind(st.cur, DiffKind::Renamed), ..st },
        DiffLine::Other => st,
    }
}

/// The scan over a list of lines, from an empty state.
pub open spec fn diff_scan(lines: Seq<Seq<char>>) -> DiffScan
    decreases lines.len(),
{
    if lines.len() == 0 {
        DiffScan { done: seq![], cur: None }
    } else {
        diff_step(diff_scan(lines.drop_last()), lines.last())
    }
}

/// Whether the last line of the new range of `h` is a `usize`.
pub open spec fn range_end_fits(h: Hunk) -> bool {
    h.new_len == 0 || h.new_start + h.new_len - 1 <= usize::MAX
}

/// Whether a step computes its range end without overflow.
pub open spec fn step_fits(st: DiffScan, line: Seq<char>) -> bool {
    match (diff_line_spec(line), st.cur, hunk_header_spec(line)) {
        (DiffLine::HunkHeader, Some(_), Some(h)) => range_end_fits(h),
        _ => true,
    }
}

/// Whether every step of the scan over `lines` fits.
pub open spec fn scan_fits(lines: Seq<Seq<char>>) -> bool {
    forall|i: int| 0 <= i < lines.len() ==> step_fits(#[trigger] diff_scan(lines.take(i)), lines[i])
}

/// Whether a file entry is kept in the result (deleted files are not).
pub open spec fn kept_file(f: FileDiffV) -> bool {
    f.kind != DiffKind::Deleted
}

/// The files that `git diff` output describes, deleted files left out.
pub open spec fn parse_diff_spec(text: Seq<char>) -> Seq<FileDiffV> {
    scan_files(diff_scan(lines_spec(text))).filter(|f: FileDiffV| kept_file(f))
}

/// The abstract value of an optional file entry.
pub open spec fn opt_file_view(o: Option<FileDiff>) -> Option<FileDiffV> {
    match o {
        Some(f) => Some(f@),
        None => None,
    }
}

fn new_file_diff(path: String, kind: DiffKind, is_new: bool) -> (r: FileDiff)
    ensures
        r@ == fresh_file(path@, kind, is_new),
{
    let r = FileDiff { path, kind, line_ranges: Vec::new(), hunks: Vec::new(), is_new };
    assert(r@.line_ranges == Seq::<LineRange>::empty());
    assert(r@.hunks == Seq::<Hunk>::empty());
    r
}

fn set_kind(cur: Option<FileDiff>, kind: DiffKind) -> (r: Option<FileDiff>)
    ensures
        opt_file_view(r) == with_kind(opt_file_view(cur), kind),
{
    match cur {
        Some(mut f) => {
            f.kind = kind;
            Some(f)
        },
        None => None,
    }
}

/// Applies one line to the scan state held in `done` and `cur`.
fn apply_diff_line(done: &mut Vec<FileDiff>, cur: Option<FileDiff>, line: &[char]) -> (r: Option<FileDiff>)
    requires
        step_fits(DiffScan { done: diff_views(old(done)@), cur: opt_file_view(cur) }, line@),
    ensures
        diff_step(DiffScan { done: diff_views(old(done)@), cur: opt_file_view(cur) }, line@)
            == (DiffScan { done: diff_views(final(done)@), cur: opt_file_view(r) }),
{
    let ghost st = DiffScan { done: diff_views(done@), cur: opt_file_view(cur) };
    match classify_diff_line(line) {
        DiffLine::FileStart => {
            match cur {
                Some(f) => {
                    done.push(f);
                    assert(diff_views(done@) == st.done.push(f@));
                },
                None => {},
            }
            None
        },
        DiffLine::OldPath => match cur {
            None => {
                let p = parse_diff_path(line);
                Some(new_file_diff(string_of(p.as_slice()), DiffKind::Modified, false))
            },
            Some(f) => Some(f),
        },
        DiffLine::NewPath => {
            let p = string_of(parse_diff_path(line).as_slice());
            match cur {
                Some(mut f) => {
                    f.path = p;
                    Some(f)
                },
                None => Some(new_file_diff(p, DiffKind::Added, true)),
            }
        },
        DiffLine::HunkHeader => match cur {
            Some(mut f) => match hunk_header_of(line) {
                Some(h) => {
                    f.hunks.push(h);
                    if h.new_len > 0 {
                        f.line_ranges.push(
                            LineRange { start: h.new_start, end: h.new_start + (h.new_len - 1) },
                        );
                    }
                    Some(f)
                },
                None => Some(f),
            },
            None => None,
        },
        DiffLine::NewFileMode => match cur {
            Some(mut f) => {
                f.is_new = true;
                f.kind = DiffKind::Added;
                Some(f)
            },
            None => Some(new_file_diff(String::new(), DiffKind::Added, true)),
        },
        DiffLine::DeletedFileMode => set_kind(cur, DiffKind::Deleted),
        DiffLine::Rename => set_kind(cur, DiffKind::Renamed),
        DiffLine::Other => cur,
    }
}

/// Runs the scan over `lines`; `None` where some hunk's range end overflows.
fn scan_diff_lines(lines: &Vec<Vec<char>>) -> (r: Option<Vec<FileDiff>>)
    ensures
        r is Some <==> scan_fits(vviews(lines@)),
        r matches Some(files) ==> diff_views(files@) == scan_files(diff_scan(vviews(lines@))),
{
    let ghost ls = vviews(lines@);
    let mut done: Vec<FileDiff> = Vec::new();
    let mut cur: Option<FileDiff> = None;
    let mut i: usize = 0;
    assert(ls.take(0) == Seq::<Seq<char>>::empty());
    assert(diff_views(done@) == Seq::<FileDiffV>::empty());
    while i < lines.len()
        invariant
            i <= lines.len(),
            ls == vviews(lines@),
            (DiffScan { done: diff_views(done@), cur: opt_file_view(cur) }) == diff_scan(ls.take(i as int)),
            forall|j: int| 0 <= j < i ==> step_fits(#[trigger] diff_scan(ls.take(j)), ls[j]),
        decreases lines.len() - i,
    {
        let line = &lines[i];
        assert(ls[i as int] == line@);
        let ghost st = DiffScan { done: diff_views(done@), cur: opt_file_view(cur) };
        let fits = match (classify_diff_line(line.as_slice()), &cur) {
            (DiffLine::HunkHeader, Some(_)) => match hunk_header_of(line.as_slice()) {
                Some(h) => h.new_len == 0 || h.new_start <= usize::MAX - (h.new_len - 1),
                None => true,
            },
            _ => true,
        };
        if !fits {
            assert(!step_fits(diff_scan(ls.take(i as int)), ls[i as int]));
            return None;
        }
        assert(step_fits(st, line@));
        cur = apply_diff_line(&mut done, cur, line.as_slice());
        assert(ls.take(i + 1).drop_last() == ls.take(i as int));
        i += 1;
    }
    assert(ls.take(i as int) == ls);
    match cur {
        Some(f) => {
            done.push(f);
            assert(diff_views(done@) == diff_views(done@.drop_last()).push(f@));
        },
        None => {},
    }
    Some(done)
}

/// Keeps the files that were not deleted.
fn keep_undeleted(files: Vec<FileDiff>) -> (r: Vec<FileDiff>)
    ensures
        diff_views(r@) == diff_views(files@).filter(|f: FileDiffV| kept_file(f)),
{
    let ghost orig = files@;
    let ghost fs = diff_views(files@);
    let mut out: Vec<FileDiff> = Vec::new();
    let mut files = files;
    let mut k: usize = 0;
    let n = files.len();
    assert(fs.take(0).filter(|f: FileDiffV| kept_file(f)) == Seq::<FileDiffV>::empty()) by {
        reveal(Seq::filter);
    }
    while files.len() > 0
        invariant
            k + files.len() == n == fs.len() == orig.len(),
            fs == diff_views(orig),
            files@ == orig.skip(k as int),
            diff_views(out@) == fs.take(k as int).filter(|f: FileDiffV| kept_file(f)),
        decreases files.len(),
    {
        let f = files.remove(0);
        assert(f@ == fs[k as int]);
        assert(fs.take(k + 1).drop_last() == fs.take(k as int));
        assert(fs.take(k + 1).last() == fs[k as int]);
        proof {
            reveal(Seq::filter);
        }
        if f.kind != DiffKind::Deleted {
            out.push(f);
            assert(diff_views(out@) == diff_views(out@.drop_last()).push(out@.last()@));
        }
        k += 1;
        assert(files@ == orig.skip(k as int));
    }
    assert(fs.take(k as int) == fs);
    out
}

/// The changed ranges that a file's hunks give: the new-side span of each
/// hunk that adds lines, in hunk order.
pub open spec fn ranges_of(hs: Seq<Hunk>) -> Seq<LineRange>
    decreases hs.len(),
{
    if hs.len() == 0 {
        seq![]
    } else {
        let p = ranges_of(hs.drop_last());
        let h = hs.last();
        if h.new_len > 0 {
            p.push(LineRange { start: h.new_start, end: (h.new_start + h.new_len - 1) as usize })
        } else {
            p
        }
    }
}

/// Whether a file entry's ranges are those its hunks give.
pub open spec fn ranges_match_hunks(f: FileDiffV) -> bool {
    f.line_ranges == ranges_of(f.hunks)
}

/// Whether every file of a scan state, finished or open, has the ranges its
/// hunks give.
pub open spec fn scan_consistent(st: DiffScan) -> bool {
    &&& forall|i: int| 0 <= i < st.done.len() ==> ranges_match_hunks(#[trigger] st.done[i])
    &&& st.cur matches Some(f) ==> ranges_match_hunks(f)
}

proof fn lemma_scan_consistent(lines: Seq<Seq<char>>)
    ensures
        scan_consistent(diff_scan(lines)),
    decreases lines.len(),
{
    if lines.len() > 0 {
        lemma_scan_consistent(lines.drop_last());
        let st = diff_scan(lines.drop_last());
        let line = lines.last();
        assert(ranges_of(Seq::<Hunk>::empty()) == Seq::<LineRange>::empty());
        match st.cur {
            Some(f) => {
                match hunk_header_spec(line) {
                    Some(h) => {
                        assert(f.hunks.push(h).drop_last() == f.hunks);
                    },
                    None => {},
                }
                assert forall|i: int| 0 <= i < st.done.push(f).len() implies ranges_match_hunks(
                    #[trigger] st.done.push(f)[i],
                ) by {
                    if i < st.done.len() {
                        assert(st.done.push(f)[i] == st.done[i]);
                    }
                }
            },
            None => {},
        }
    }
}

proof fn lemma_kept_files(s: Seq<FileDiffV>, t: Seq<FileDiffV>)
    requires
        forall|i: int| 0 <= i < s.len() ==> ranges_match_hunks(#[trigger] s[i]),
        t == s.filter(|f: FileDiffV| kept_file(f)),
    ensures
        forall|i: int| 0 <= i < t.len() ==> kept_file(#[trigger] t[i]) && ranges_match_hunks(t[i]),
    decreases s.len(),
{
    reveal(Seq::filter);
    if s.len() > 0 {
        let d = s.drop_last();
        assert forall|i: int| 0 <= i < d.len() implies ranges_match_hunks(#[trigger] d[i]) by {
            assert(d[i] == s[i]);
        }
        let u = d.filter(|f: FileDiffV| kept_file(f));
        lemma_kept_files(d, u);
        if kept_file(s.last()) {
            assert(t == u.push(s.last()));
            assert forall|i: int| 0 <= i < t.len() implies kept_file(#[trigger] t[i]) && ranges_match_hunks(
                t[i],
            ) by {
                if i < u.len() {
                    assert(t[i] == u[i]);
                }
            }
        } else {
            assert(t == u);
        }
    }
}

/// What parsing a diff gives: no deleted file, and for every file the
/// changed ranges are the new-side spans of its hunks that add lines, in the
/// order of its `@@` headers.
pub proof fn lemma_parse_diff_files(text: Seq<char>)
    ensures
        forall|i: int|
            0 <= i < parse_diff_spec(text).len() ==> (#[trigger] parse_diff_spec(text)[i]).kind
                != DiffKind::Deleted && parse_diff_spec(text)[i].line_ranges == ranges_of(
                parse_diff_spec(text)[i].hunks,
            ),
{
    let st = diff_scan(lines_spec(text));
    lemma_scan_consistent(lines_spec(text));
    let fs = scan_files(st);
    assert forall|i: int| 0 <= i < fs.len() implies ranges_match_hunks(#[trigger] fs[i]) by {
        match st.cur {
            Some(f) => {
                if i < st.done.len() {
                    assert(fs[i] == st.done[i]);
                }
            },
            None => {},
        }
    }
    lemma_kept_files(fs, parse_diff_spec(text));
}

/// The files that a list of diff lines describes, deleted files left out
/// (what [`parse_diff_spec`] gives for the lines of a text).
pub open spec fn diff_files(ls: Seq<Seq<char>>) -> Seq<FileDiffV> {
    scan_files(diff_scan(ls)).filter(|f: FileDiffV| kept_file(f))
}

/// The scan over `ls` continued from the state `st`.
pub open spec fn scan_after(st: DiffScan, ls: Seq<Seq<char>>) -> DiffScan
    decreases ls.len(),
{
    if ls.len() == 0 {
        st
    } else {
        diff_step(scan_after(st, ls.drop_last()), ls.last())
    }
}

proof fn lemma_scan_from_start(ls: Seq<Seq<char>>)
    ensures
        diff_scan(ls) == scan_after(DiffScan { done: seq![], cur: None }, ls),
    decreases ls.len(),
{
    if ls.len() > 0 {
        lemma_scan_from_start(ls.drop_last());
    }
}

proof fn lemma_scan_after_cat(st: DiffScan, a: Seq<Seq<char>>, b: Seq<Seq<char>>)
    ensures
        scan_after(st, a + b) == scan_after(scan_after(st, a), b),
    decreases b.len(),
{
    if b.len() == 0 {
        assert(a + b == a);
    } else {
        lemma_scan_after_cat(st, a, b.drop_last());
        assert((a + b).drop_last() == a + b.drop_last());
        assert((a + b).last() == b.last());
    }
}

proof fn lemma_scan_keeps_prefix(d: Seq<FileDiffV>, st: DiffScan, ls: Seq<Seq<char>>)
    ensures
        scan_after(DiffScan { done: d + st.done, cur: st.cur }, ls) == (DiffScan {
            done: d + scan_after(st, ls).done,
            cur: scan_after(st, ls).cur,
        }),
    decreases ls.len(),
{
    if ls.len() > 0 {
        lemma_scan_keeps_prefix(d, st, ls.drop_last());
        let p = scan_after(st, ls.drop_last());
        match p.cur {
            Some(f) => {
                assert((d + p.done).push(f) == d + p.done.push(f));
            },
            None => {},
        }
    }
}

/// Diff sections are independent: the files of two runs of diff lines, the
/// second starting a new file section (`diff --git ...`), are the files of
/// the first run followed by those of the second. So every file section of
/// a diff, not only the last, gives its file, in order.
pub proof fn lemma_diff_files_concat(l1: Seq<Seq<char>>, l2: Seq<Seq<char>>)
    requires
        l2.len() > 0,
        has_prefix(l2[0], "diff --git"@),
    ensures
        diff_files(l1 + l2) == diff_files(l1) + diff_files(l2),
{
    let init = DiffScan { done: seq![], cur: None };
    let rest = l2.drop_first();
    assert(l2 == seq![l2[0]] + rest);
    lemma_scan_from_start(l1 + l2);
    lemma_scan_from_start(l1);
    lemma_scan_from_start(l2);
    lemma_scan_after_cat(init, l1, l2);
    let s1 = diff_scan(l1);
    lemma_scan_after_cat(s1, seq![l2[0]], rest);
    lemma_scan_after_cat(init, seq![l2[0]], rest);
    assert(seq![l2[0]].drop_last() == Seq::<Seq<char>>::empty());
    assert(seq![l2[0]].last() == l2[0]);
    assert(diff_line_spec(l2[0]) == DiffLine::FileStart);
    assert(scan_after(s1, Seq::<Seq<char>>::empty()) == s1);
    assert(scan_after(init, Seq::<Seq<char>>::empty()) == init);
    let after1 = scan_after(s1, seq![l2[0]]);
    assert(after1 == DiffScan { done: scan_files(s1), cur: None });
    let after0 = scan_after(init, seq![l2[0]]);
    assert(after0 == DiffScan { done: Seq::<FileDiffV>::empty(), cur: None });
    let d = scan_files(s1);
    assert(after1 == DiffScan { done: d + after0.done, cur: after0.cur });
    lemma_scan_keeps_prefix(d, after0, rest);
    let r = diff_scan(l2);
    assert(r == scan_after(after0, rest));
    assert(diff_scan(l1 + l2) == DiffScan { done: d + r.done, cur: r.cur });
    match r.cur {
        Some(f) => {
            assert((d + r.done).push(f) == d + r.done.push(f));
        },
        None => {},
    }
    assert(scan_files(diff_scan(l1 + l2)) == d + scan_files(r));
    Seq::filter_distributes_over_add(d, scan_files(r), |f: FileDiffV| kept_file(f));
}

proof fn lemma_one_section_prefix(ls: Seq<Seq<char>>, k: int)
    requires
        2 <= k <= ls.len(),
        has_prefix(ls[0], "diff --git"@),
        has_prefix(ls[1], "--- "@),
        forall|j: int|
            2 <= j < ls.len() ==> !has_prefix(#[trigger] ls[j], "diff --git"@) && !has_prefix(
                ls[j],
                "diff --cc"@,
            ) && !has_prefix(ls[j], "deleted file mode"@),
    ensures
        diff_scan(ls.take(k)).done.len() == 0,
        diff_scan(ls.take(k)).cur matches Some(f) && f.kind != DiffKind::Deleted,
    decreases k,
{
    reveal_strlit("diff --git");
    reveal_strlit("diff --cc");
    reveal_strlit("--- ");
    assert(ls.take(k).drop_last() == ls.take(k - 1));
    assert(ls.take(k).last() == ls[k - 1]);
    if k == 2 {
        assert(ls.take(1).drop_last() == Seq::<Seq<char>>::empty());
        assert(diff_scan(Seq::<Seq<char>>::empty()) == DiffScan { done: seq![], cur: None });
        assert(diff_scan(ls.take(1)).done.len() == 0 && diff_scan(ls.take(1)).cur is None);
        assert(ls.take(1).last() == ls[0]);
        assert(diff_line_spec(ls[0]) == DiffLine::FileStart);
        assert(ls[1].take(4)[0] == "--- "@[0]);
        assert(ls[1][0] == '-');
        if has_prefix(ls[1], "diff --git"@) {
            assert(ls[1].take(10)[0] == "diff --git"@[0]);
        }
        if has_prefix(ls[1], "diff --cc"@) {
            assert(ls[1].take(9)[0] == "diff --cc"@[0]);
        }
        assert(!has_prefix(ls[1], "diff --git"@));
        assert(!has_prefix(ls[1], "diff --cc"@));
        assert(diff_line_spec(ls[1]) == DiffLine::OldPath);
    } else {
        lemma_one_section_prefix(ls, k - 1);
        assert(diff_line_spec(ls[k - 1]) != DiffLine::FileStart);
        assert(diff_line_spec(ls[k - 1]) != DiffLine::DeletedFileMode);
    }
}

/// One file section (a `diff --git` line, a `--- ` line, then lines that
/// neither start another section nor mark the file deleted) gives exactly
/// one file.
pub proof fn lemma_one_section(ls: Seq<Seq<char>>)
    requires
        ls.len() >= 2,
        has_prefix(ls[0], "diff --git"@),
        has_prefix(ls[1], "--- "@),
        forall|j: int|
            2 <= j < ls.len() ==> !has_prefix(#[trigger] ls[j], "diff --git"@) && !has_prefix(
                ls[j],
                "diff --cc"@,
            ) && !has_prefix(ls[j], "deleted file mode"@),
    ensures
        diff_files(ls).len() == 1,
{
    lemma_one_section_prefix(ls, ls.len() as int);
    assert(ls.take(ls.len() as int) == ls);
    let st = diff_scan(ls);
    let f = st.cur->0;
    assert(scan_files(st) == seq![f]);
    reveal(Seq::filter);
    assert(seq![f].drop_last() == Seq::<FileDiffV>::empty());
    assert(seq![f].last() == f);
    assert(Seq::<FileDiffV>::empty().filter(|g: FileDiffV| kept_file(g)) == Seq::<FileDiffV>::empty());
}

/// The hunks that the `@@ ` header lines among `ls` describe, in order
/// (headers that do not parse left out).
pub open spec fn header_hunks(ls: Seq<Seq<char>>) -> Seq<Hunk>
    decreases ls.len(),
{
    if ls.len() == 0 {
        seq![]
    } else {
        let p = header_hunks(ls.drop_last());
        if has_prefix(ls.last(), "@@ "@) && hunk_header_spec(ls.last()) is Some {
            p.push(hunk_header_spec(ls.last())->0)
        } else {
            p
        }
    }
}

proof fn lemma_first_char(line: Seq<char>, p: Seq<char>)
    requires
        has_prefix(line, p),
        p.len() > 0,
    ensures
        line[0] == p[0],
{
    assert(line.take(p.len() as int)[0] == p[0]);
}

proof fn lemma_section_hunks_prefix(ls: Seq<Seq<char>>, k: int)
    requires
        2 <= k <= ls.len(),
        has_prefix(ls[0], "diff --git"@),
        has_prefix(ls[1], "--- "@),
        forall|j: int|
            2 <= j < ls.len() ==> !has_prefix(#[trigger] ls[j], "diff --git"@) && !has_prefix(
                ls[j],
                "diff --cc"@,
            ) && !has_prefix(ls[j], "deleted file mode"@),
    ensures
        diff_scan(ls.take(k)).cur matches Some(f) && f.hunks == header_hunks(ls.subrange(2, k)),
    decreases k,
{
    lemma_one_section_prefix(ls, k);
    reveal_strlit("@@ ");
    reveal_strlit("--- ");
    reveal_strlit("+++ ");
    reveal_strlit("new file mode");
    reveal_strlit("rename from");
    reveal_strlit("rename to");
    assert(ls.take(k).drop_last() == ls.take(k - 1));
    assert(ls.take(k).last() == ls[k - 1]);
    if k == 2 {
        assert(ls.subrange(2, 2) == Seq::<Seq<char>>::empty());
        assert(ls.take(1).drop_last() == Seq::<Seq<char>>::empty());
        assert(ls.take(1).last() == ls[0]);
        assert(diff_scan(Seq::<Seq<char>>::empty()) == DiffScan { done: seq![], cur: None });
        reveal_strlit("diff --git");
        lemma_first_char(ls[0], "diff --git"@);
        assert(diff_line_spec(ls[0]) == DiffLine::FileStart);
        assert(diff_scan(ls.take(1)).cur is None);
        lemma_first_char(ls[1], "--- "@);
        if has_prefix(ls[1], "diff --git"@) {
            lemma_first_char(ls[1], "diff --git"@);
        }
        reveal_strlit("diff --cc");
        if has_prefix(ls[1], "diff --cc"@) {
            lemma_first_char(ls[1], "diff --cc"@);
        }
        assert(diff_line_spec(ls[1]) == DiffLine::OldPath);
    } else {
        lemma_section_hunks_prefix(ls, k - 1);
        let line = ls[k - 1];
        let sub = ls.subrange(2, k);
        assert(sub.drop_last() == ls.subrange(2, k - 1));
        assert(sub.last() == line);
        let kind = diff_line_spec(line);
        if has_prefix(line, "@@ "@) {
            lemma_first_char(line, "@@ "@);
            if has_prefix(line, "--- "@) {
                lemma_first_char(line, "--- "@);
            }
            if has_prefix(line, "+++ "@) {
                lemma_first_char(line, "+++ "@);
            }
            assert(kind == DiffLine::HunkHeader);
        } else {
            assert(kind != DiffLine::HunkHeader);
        }
    }
}

/// In one file section (as in [`lemma_one_section`]) the file's hunks are
/// exactly those of the section's `@@ ` header lines, in order.
pub proof fn lemma_section_hunks(ls: Seq<Seq<char>>)
    requires
        ls.len() >= 2,
        has_prefix(ls[0], "diff --git"@),
        has_prefix(ls[1], "--- "@),
        forall|j: int|
            2 <= j < ls.len() ==> !has_prefix(#[trigger] ls[j], "diff --git"@) && !has_prefix(
                ls[j],
                "diff --cc"@,
            ) && !has_prefix(ls[j], "deleted file mode"@),
    ensures
        diff_files(ls).len() == 1,
        diff_files(ls)[0].hunks == header_hunks(ls.skip(2)),
{
    lemma_one_section(ls);
    lemma_section_hunks_prefix(ls, ls.len() as int);
    assert(ls.take(ls.len() as int) == ls);
    assert(ls.subrange(2, ls.len() as int) == ls.skip(2));
    let st = diff_scan(ls);
    let f = st.cur->0;
    lemma_one_section_prefix(ls, ls.len() as int);
    assert(scan_files(st) == seq![f]);
    reveal(Seq::filter);
    assert(seq![f].drop_last() == Seq::<FileDiffV>::empty());
    assert(seq![f].last() == f);
    assert(Seq::<FileDiffV>::empty().filter(|g: FileDiffV| kept_file(g)) == Seq::<FileDiffV>::empty());
    assert(diff_files(ls) == seq![f]);
}

/// Parses `git diff --unified=0` output into its changed files, deleted
/// files left out.
pub fn parse_diff(text: &str) -> (r: Vec<FileDiff>)
    requires
        scan_fits(lines_spec(text@)),
    ensures
        diff_views(r@) == parse_diff_spec(text@),
{
    let chars = chars_of(text);
    let lines = split_lines(chars.as_slice());
    match scan_diff_lines(&lines) {
        Some(files) => keep_undeleted(files),
        None => Vec::new(),
    }
}

/// Whether `parse_diff` can compute every changed range of `text`: no hunk
/// header of an open file has a new range ending past `usize::MAX`.
pub fn diff_ranges_fit(text: &str) -> (r: bool)
    ensures
        r == scan_fits(lines_spec(text@)),
{
    let chars = chars_of(text);
    let lines = split_lines(chars.as_slice());
    scan_diff_lines(&lines).is_some()
}

/// Whether the range `r` meets the span `[line, end]`: it holds either end,
/// or the span covers it.
pub open spec fn range_hits(r: LineRange, line: usize, end: usize) -> bool {
    (r.start <= line && line <= r.end) || (r.start <= end && end <= r.end) || (line <= r.start
        && end >= r.end)
}

/// Whether the span `[line, end_line]` (one line where `end_line` is `None`)
/// of `file` passes a filter with the changed ranges `m`: files the filter
/// does not list, and listed files without ranges, pass whole.
pub open spec fn ranges_allow(
    m: Map<Seq<char>, Seq<LineRange>>,
    file: Seq<char>,
    line: usize,
    end_line: Option<usize>,
) -> bool {
    let end = match end_line {
        Some(e) => e,
        None => line,
    };
    !m.contains_key(file) || m[file].len() == 0 || exists|i: int|
        0 <= i < m[file].len() && range_hits(#[trigger] m[file][i], line, end)
}

/// What a filter built from `ds` holds: for each path, the ranges of all
/// its entries, in order.
pub open spec fn filter_ranges(ds: Seq<FileDiffV>) -> Map<Seq<char>, Seq<LineRange>>
    decreases ds.len(),
{
    if ds.len() == 0 {
        Map::empty()
    } else {
        let m = filter_ranges(ds.drop_last());
        let d = ds.last();
        let before = if m.contains_key(d.path) {
            m[d.path]
        } else {
            Seq::<LineRange>::empty()
        };
        m.insert(d.path, before + d.line_ranges)
    }
}

/// Decides whether a line of a file lies in the changed ranges.
#[derive(Debug, Clone)]
pub struct LineFilter {
    ranges: Vec<(String, Vec<LineRange>)>,
}

impl View for LineFilter {
    type V = Map<Seq<char>, Seq<LineRange>>;

    closed spec fn view(&self) -> Map<Seq<char>, Seq<LineRange>> {
        assoc_map(self.ranges@)
    }
}

impl LineFilter {
    /// A filter that lets every line through.
    pub fn all() -> (r: Self)
        ensures
            r@ == Map::<Seq<char>, Seq<LineRange>>::empty(),
            forall|file: Seq<char>, line: usize, end_line: Option<usize>|
                ranges_allow(r@, file, line, end_line),
    {
        LineFilter { ranges: Vec::new() }
    }

    /// A filter over the changed ranges of `diffs`.
    pub fn from_diffs(diffs: &[FileDiff]) -> (r: Self)
        ensures
            r@ == filter_ranges(diff_views(diffs@)),
    {
        let ghost ds = diff_views(diffs@);
        let mut ranges: Vec<(String, Vec<LineRange>)> = Vec::new();
        let mut i: usize = 0;
        assert(ds.take(0) == Seq::<FileDiffV>::empty());
        while i < diffs.len()
            invariant
                i <= diffs.len(),
                ds == diff_views(diffs@),
                assoc_map(ranges@) == filter_ranges(ds.take(i as int)),
            decreases diffs.len() - i,
        {
            let d = &diffs[i];
            assert(ds[i as int] == d@);
            let ghost old_ranges = ranges@;
            match find_last_key(&ranges, d.path.as_str()) {
                Some(j) => {
                    proof {
                        lemma_assoc_at(ranges@, d.path@, j as int);
                    }
                    let mut v = copy_items(ranges[j].1.as_slice());
                    let mut more = copy_items(d.line_ranges.as_slice());
                    v.append(&mut more);
                    let key = ranges[j].0.clone();
                    let ghost e = (key, v);
                    proof {
                        lemma_assoc_update(ranges@, j as int, e);
                    }
                    ranges.set(j, (key, v));
                    assert(ranges@ == old_ranges.update(j as int, e));
                },
                None => {
                    proof {
                        lemma_assoc_absent(ranges@, d.path@);
                    }
                    let v = copy_items(d.line_ranges.as_slice());
                    ranges.push((d.path.clone(), v));
                    assert(ranges@.drop_last() == old_ranges);
                    assert(Seq::<LineRange>::empty() + d@.line_ranges == d@.line_ranges);
                },
            }
            assert(ds.take(i + 1).drop_last() == ds.take(i as int));
            assert(ds.take(i + 1).last() == d@);
            i += 1;
        }
        assert(ds.take(i as int) == ds);
        LineFilter { ranges }
    }

    /// Whether line `line` of `file` lies in the changed ranges.
    pub fn allows(&self, file: &str, line: usize) -> (r: bool)
        ensures
            r == ranges_allow(self@, file@, line, None),
    {
        self.allows_range(file, line, None)
    }

    /// Whether a violation passes under a reporting policy: `Anchor` looks at
    /// its first line only, `Intersect` at its whole span.
    pub fn allows_policy(&self, file: &str, line: usize, end_line: Option<usize>, policy: SpanPolicy) -> (r: bool)
        ensures
            r == match policy {
                SpanPolicy::Anchor => ranges_allow(self@, file@, line, None),
                SpanPolicy::Intersect => ranges_allow(self@, file@, line, end_line),
            },
    {
        match policy {
            SpanPolicy::Anchor => self.allows(file, line),
            SpanPolicy::Intersect => self.allows_range(file, line, end_line),
        }
    }

    /// Whether the span `[line, end_line]` of `file` meets the changed ranges.
    pub fn allows_range(&self, file: &str, line: usize, end_line: Option<usize>) -> (r: bool)
        ensures
            r == ranges_allow(self@, file@, line, end_line),
    {
        match find_last_key(&self.ranges, file) {
            None => {
                proof {
                    lemma_assoc_absent(self.ranges@, file@);
                }
                true
            },
            Some(j) => {
                proof {
                    lemma_assoc_at(self.ranges@, file@, j as int);
                }
                let rs = &self.ranges[j].1;
                if rs.len() == 0 {
                    return true;
                }
                let end = match end_line {
                    Some(e) => e,
                    None => line,
                };
                let mut i: usize = 0;
                while i < rs.len()
                    invariant
                        i <= rs.len(),
                        self@.contains_key(file@),
                        rs@ == self@[file@],
                        end == match end_line {
                            Some(e) => e,
                            None => line,
                        },
                        forall|k: int| 0 <= k < i ==> !range_hits(#[trigger] rs@[k], line, end),
                    decreases rs.len() - i,
                {
                    let r = rs[i];
                    if r.contains(line) || r.contains(end) || (line <= r.start && end >= r.end) {
                        assert(range_hits(self@[file@][i as int], line, end));
                        return true;
                    }
                    i += 1;
                }
                false
            },
        }
    }

    /// The changed ranges of `file`, where the filter lists it.
    pub fn get_ranges(&self, file: &str) -> (r: Option<&[LineRange]>)
        ensures
            r is Some <==> self@.contains_key(file@),
            r matches Some(rs) ==> rs@ == self@[file@],
    {
        match find_last_key(&self.ranges, file) {
            None => {
                proof {
                    lemma_assoc_absent(self.ranges@, file@);
                }
                None
            },
            Some(j) => {
                proof {
                    lemma_assoc_at(self.ranges@, file@, j as int);
                }
                Some(self.ranges[j].1.as_slice())
            },
        }
    }

    /// Whether the filter restricts any file.
    pub fn is_incremental(&self) -> (r: bool)
        ensures
            r == (self@.dom() != Set::<Seq<char>>::empty()),
    {
        if self.ranges.len() == 0 {
            assert(self@.dom() =~= Set::<Seq<char>>::empty());
            false
        } else {
            assert(self@.dom().contains(self.ranges@.last().0@));
            true
        }
    }
}

/// For a span that runs forward, the `Intersect` policy lets through every
/// violation the `Anchor` policy lets through.
pub proof fn lemma_anchor_within_intersect(
    m: Map<Seq<char>, Seq<LineRange>>,
    file: Seq<char>,
    line: usize,
    end_line: Option<usize>,
)
    requires
        end_line matches Some(e) ==> line <= e,
        ranges_allow(m, file, line, None),
    ensures
        ranges_allow(m, file, line, end_line),
{
    if m.contains_key(file) && m[file].len() > 0 {
        assert(exists|i: int| 0 <= i < m[file].len() && range_hits(#[trigger] m[file][i], line, line));
        let i = choose|i: int| 0 <= i < m[file].len() && range_hits(#[trigger] m[file][i], line, line);
        let end = match end_line {
            Some(e) => e,
            None => line,
        };
        assert(range_hits(m[file][i], line, end));
    }
}

/// Without an end line, the `Intersect` policy is the `Anchor` policy.
pub proof fn lemma_intersect_single_line(
    m: Map<Seq<char>, Seq<LineRange>>,
    file: Seq<char>,
    line: usize,
)
    ensures
        ranges_allow(m, file, line, None) == ranges_allow(m, file, line, Some(line)),
{
}

/// Inserts `h` after every hunk that does not start after it (old side).
pub open spec fn insert_hunk(s: Seq<Hunk>, h: Hunk) -> Seq<Hunk>
    decreases s.len(),
{
    if s.len() == 0 {
        seq![h]
    } else if s.last().old_start > h.old_start {
        insert_hunk(s.drop_last(), h).push(s.last())
    } else {
        s.push(h)
    }
}

/// Stable sort of hunks by `old_start`.
pub open spec fn sort_hunks(s: Seq<Hunk>) -> Seq<Hunk>
    decreases s.len(),
{
    if s.len() == 0 {
        s
    } else {
        insert_hunk(sort_hunks(s.drop_last()), s.last())
    }
}

/// `t` with the hunks of `q` inserted one by one, in order.
pub open spec fn insert_hunks(t: Seq<Hunk>, q: Seq<Hunk>) -> Seq<Hunk>
    decreases q.len(),
{
    if q.len() == 0 {
        t
    } else {
        insert_hunk(insert_hunks(t, q.drop_last()), q.last())
    }
}

proof fn lemma_sort_hunks_append(a: Seq<Hunk>, q: Seq<Hunk>)
    ensures
        sort_hunks(a + q) == insert_hunks(sort_hunks(a), q),
    decreases q.len(),
{
    if q.len() == 0 {
        assert(a + q == a);
    } else {
        lemma_sort_hunks_append(a, q.drop_last());
        assert((a + q).drop_last() == a + q.drop_last());
        assert((a + q).last() == q.last());
    }
}

proof fn lemma_insert_hunk_commute(t: Seq<Hunk>, x: Hunk, y: Hunk)
    requires
        x.old_start != y.old_start,
    ensures
        insert_hunk(insert_hunk(t, x), y) == insert_hunk(insert_hunk(t, y), x),
    decreases t.len(),
{
    if t.len() == 0 {
        assert(seq![x].drop_last() == t && seq![y].drop_last() == t);
        assert(seq![x].last() == x && seq![y].last() == y);
    } else {
        let d = t.drop_last();
        let l = t.last();
        assert(t.push(x).drop_last() == t && t.push(y).drop_last() == t);
        if l.old_start > x.old_start && l.old_start > y.old_start {
            lemma_insert_hunk_commute(d, x, y);
            assert(insert_hunk(d, x).push(l).drop_last() == insert_hunk(d, x));
            assert(insert_hunk(d, y).push(l).drop_last() == insert_hunk(d, y));
        } else if l.old_start > x.old_start {
            assert(insert_hunk(d, x).push(l).drop_last() == insert_hunk(d, x));
            assert(t.push(y).push(x) == t.push(y).push(x));
        } else if l.old_start > y.old_start {
            assert(insert_hunk(d, y).push(l).drop_last() == insert_hunk(d, y));
        } else {
            assert(t.push(x).push(y).drop_last() == t.push(x));
        }
    }
}

/// Swapping two neighbouring hunks whose old sides start on different lines
/// does not change the sorted hunks a line mapper keeps; so a file whose
/// hunks start on pairwise different old lines maps lines the same whatever
/// order its hunks come in.
pub proof fn lemma_sort_hunks_swap(p: Seq<Hunk>, x: Hunk, y: Hunk, q: Seq<Hunk>)
    requires
        x.old_start != y.old_start,
    ensures
        sort_hunks(p + seq![x, y] + q) == sort_hunks(p + seq![y, x] + q),
{
    lemma_sort_hunks_append(p + seq![x, y], q);
    lemma_sort_hunks_append(p + seq![y, x], q);
    lemma_sort_hunks_append(p, seq![x, y]);
    lemma_sort_hunks_append(p, seq![y, x]);
    assert(seq![x, y].drop_last() == seq![x] && seq![y, x].drop_last() == seq![y]);
    assert(seq![x].drop_last() == Seq::<Hunk>::empty() && seq![y].drop_last() == Seq::<Hunk>::empty());
    let t = sort_hunks(p);
    assert(insert_hunks(t, Seq::<Hunk>::empty()) == t);
    assert(seq![x].last() == x && seq![y].last() == y);
    assert(seq![x, y].last() == y && seq![y, x].last() == x);
    assert(insert_hunks(t, seq![x]) == insert_hunk(t, x));
    assert(insert_hunks(t, seq![y]) == insert_hunk(t, y));
    assert(insert_hunks(t, seq![x, y]) == insert_hunk(insert_hunk(t, x), y));
    assert(insert_hunks(t, seq![y, x]) == insert_hunk(insert_hunk(t, y), x));
    lemma_insert_hunk_commute(t, x, y);
    assert(sort_hunks(p + seq![x, y]) == sort_hunks(p + seq![y, x]));
}

proof fn lemma_insert_hunk_at(s: Seq<Hunk>, h: Hunk, j: int)
    requires
        0 <= j <= s.len(),
        forall|k: int| j <= k < s.len() ==> (#[trigger] s[k]).old_start > h.old_start,
        j == 0 || s[j - 1].old_start <= h.old_start,
    ensures
        insert_hunk(s, h) == s.take(j).push(h) + s.skip(j),
    decreases s.len() - j,
{
    if s.len() == 0 {
        assert(s.take(j).push(h) + s.skip(j) == seq![h]);
    } else if j == s.len() {
        assert(s.take(j) == s);
        assert(s.skip(j) == Seq::<Hunk>::empty());
        assert(s.take(j).push(h) + s.skip(j) == s.push(h));
    } else {
        let d = s.drop_last();
        assert(s.last().old_start > h.old_start);
        assert forall|k: int| j <= k < d.len() implies (#[trigger] d[k]).old_start > h.old_start by {
            assert(d[k] == s[k]);
        }
        if j > 0 {
            assert(d[j - 1] == s[j - 1]);
        }
        lemma_insert_hunk_at(d, h, j);
        assert(d.take(j) == s.take(j));
        assert((d.take(j).push(h) + d.skip(j)).push(s.last()) == s.take(j).push(h) + s.skip(j));
    }
}

/// Sorts hunks by `old_start`; hunks with equal starts keep their order.
pub fn sorted_hunks(hs: &[Hunk]) -> (r: Vec<Hunk>)
    ensures
        r@ == sort_hunks(hs@),
{
    let mut res: Vec<Hunk> = Vec::new();
    let mut k: usize = 0;
    assert(hs@.take(0) == Seq::<Hunk>::empty());
    while k < hs.len()
        invariant
            k <= hs.len(),
            res@ == sort_hunks(hs@.take(k as int)),
        decreases hs.len() - k,
    {
        let h = hs[k];
        let mut j: usize = res.len();
        while j > 0 && res[j - 1].old_start > h.old_start
            invariant
                j <= res.len(),
                forall|m: int| j <= m < res.len() ==> (#[trigger] res@[m]).old_start > h.old_start,
            decreases j,
        {
            j -= 1;
        }
        proof {
            lemma_insert_hunk_at(res@, h, j as int);
            assert(hs@.take(k + 1).drop_last() == hs@.take(k as int));
            assert(hs@.take(k + 1).last() == h);
        }
        res.insert(j, h);
        k += 1;
    }
    assert(hs@.take(k as int) == hs@);
    res
}

/// What a mapper built from `ds` holds: for each path with hunks, the sorted
/// hunks of its last such entry.
pub open spec fn mapper_hunks(ds: Seq<FileDiffV>) -> Map<Seq<char>, Seq<Hunk>>
    decreases ds.len(),
{
    if ds.len() == 0 {
        Map::empty()
    } else {
        let m = mapper_hunks(ds.drop_last());
        let d = ds.last();
        if d.hunks.len() == 0 {
            m
        } else {
            m.insert(d.path, sort_hunks(d.hunks))
        }
    }
}

/// The new line of old line `line` under hunks `hs` (taken in order),
/// `delta` being the shift accumulated so far; `None` for a deleted line.
/// Sums wrap at `usize::MAX` as two's-complement machine integers do.
pub open spec fn translate_from(hs: Seq<Hunk>, line: usize, delta: usize) -> Option<usize>
    decreases hs.len(),
{
    if hs.len() == 0 {
        Some(line.wrapping_add(delta))
    } else {
        let h = hs[0];
        if line < h.old_start {
            Some(line.wrapping_add(delta))
        } else if line < h.old_start.wrapping_add(h.old_len) {
            let off = (line - h.old_start) as usize;
            if off < h.new_len {
                Some(h.new_start.wrapping_add(off))
            } else {
                None
            }
        } else {
            translate_from(hs.drop_first(), line, delta.wrapping_add(h.new_len).wrapping_sub(h.old_len))
        }
    }
}

/// Maps old line numbers of changed files to new ones.
#[derive(Debug, Clone)]
pub struct LineMapper {
    hunks: Vec<(String, Vec<Hunk>)>,
}

impl View for LineMapper {
    type V = Map<Seq<char>, Seq<Hunk>>;

    closed spec fn view(&self) -> Map<Seq<char>, Seq<Hunk>> {
        assoc_map(self.hunks@)
    }
}

impl Default for LineMapper {
    fn default() -> (r: Self)
        ensures
            r@ == Map::<Seq<char>, Seq<Hunk>>::empty(),
    {
        LineMapper { hunks: Vec::new() }
    }
}

impl LineMapper {
    /// A mapper over the hunks of `diffs`.
    pub fn from_diffs(diffs: &[FileDiff]) -> (r: Self)
        ensures
            r@ == mapper_hunks(diff_views(diffs@)),
    {
        let ghost ds = diff_views(diffs@);
        let mut hunks: Vec<(String, Vec<Hunk>)> = Vec::new();
        let mut i: usize = 0;
        assert(ds.take(0) == Seq::<FileDiffV>::empty());
        while i < diffs.len()
            invariant
                i <= diffs.len(),
                ds == diff_views(diffs@),
                assoc_map(hunks@) == mapper_hunks(ds.take(i as int)),
            decreases diffs.len() - i,
        {
            let d = &diffs[i];
            assert(ds[i as int] == d@);
            let ghost old_hunks = hunks@;
            if d.hunks.len() > 0 {
                let hs = sorted_hunks(d.hunks.as_slice());
                match find_last_key(&hunks, d.path.as_str()) {
                    Some(j) => {
                        let key = d.path.clone();
                        let ghost e = (key, hs);
                        proof {
                            lemma_assoc_update(hunks@, j as int, e);
                        }
                        hunks.set(j, (key, hs));
                        assert(hunks@ == old_hunks.update(j as int, e));
                    },
                    None => {
                        hunks.push((d.path.clone(), hs));
                        assert(hunks@.drop_last() == old_hunks);
                    },
                }
            }
            assert(ds.take(i + 1).drop_last() == ds.take(i as int));
            assert(ds.take(i + 1).last() == d@);
            i += 1;
        }
        assert(ds.take(i as int) == ds);
        LineMapper { hunks }
    }

    /// The new line number of old line `old_line` of `file`; `None` where the
    /// line was deleted, or the mapper has no hunks for `file`.
    pub fn translate(&self, file: &str, old_line: usize) -> (r: Option<usize>)
        ensures
            r == (if self@.contains_key(file@) {
                translate_from(self@[file@], old_line, 0)
            } else {
                None
            }),
    {
        match find_last_key(&self.hunks, file) {
            None => {
                proof {
                    lemma_assoc_absent(self.hunks@, file@);
                }
                None
            },
            Some(j) => {
                proof {
                    lemma_assoc_at(self.hunks@, file@, j as int);
                }
                let hs = &self.hunks[j].1;
                let mut delta: usize = 0;
                let mut i: usize = 0;
                assert(hs@.skip(0) == hs@);
                while i < hs.len()
                    invariant
                        i <= hs.len(),
                        self@.contains_key(file@),
                        hs@ == self@[file@],
                        translate_from(hs@, old_line, 0) == translate_from(
                            hs@.skip(i as int),
                            old_line,
                            delta,
                        ),
                    decreases hs.len() - i,
                {
                    let h = hs[i];
                    assert(hs@.skip(i as int)[0] == h);
                    assert(hs@.skip(i as int).drop_first() == hs@.skip(i + 1));
                    if old_line < h.old_start {
                        return Some(old_line.wrapping_add(delta));
                    }
                    if old_line < h.old_start.wrapping_add(h.old_len) {
                        let off = old_line - h.old_start;
                        return if off < h.new_len {
                            Some(h.new_start.wrapping_add(off))
                        } else {
                            None
                        };
                    }
                    delta = delta.wrapping_add(h.new_len).wrapping_sub(h.old_len);
                    i += 1;
                }
                assert(hs@.skip(i as int).len() == 0);
                Some(old_line.wrapping_add(delta))
            },
        }
    }
}

/// The total shift a list of hunks gives to the lines after them.
pub open spec fn hunk_shift(hs: Seq<Hunk>) -> int
    decreases hs.len(),
{
    if hs.len() == 0 {
        0
    } else {
        (hs[0].new_len - hs[0].old_len) + hunk_shift(hs.drop_first())
    }
}

proof fn lemma_wrap_is_mod(x: int, w: int)
    requires
        -(usize::MAX + 1) <= x < 2 * (usize::MAX + 1),
        w == (if x > usize::MAX {
            x - (usize::MAX + 1)
        } else if x < 0 {
            x + (usize::MAX + 1)
        } else {
            x
        }),
    ensures
        w == x % (usize::MAX + 1),
{
    let m = usize::MAX + 1;
    if x > usize::MAX {
        vstd::arithmetic::div_mod::lemma_fundamental_div_mod_converse(x, m, 1, w);
    } else if x < 0 {
        vstd::arithmetic::div_mod::lemma_fundamental_div_mod_converse(x, m, -1, w);
    } else {
        vstd::arithmetic::div_mod::lemma_fundamental_div_mod_converse(x, m, 0, w);
    }
}

proof fn lemma_translate_after_from(hs: Seq<Hunk>, line: usize, delta: usize)
    requires
        forall|k: int| 0 <= k < hs.len() ==> (#[trigger] hs[k]).old_start + hs[k].old_len <= line,
    ensures
        translate_from(hs, line, delta) == Some(
            ((line + delta + hunk_shift(hs)) % (usize::MAX + 1)) as usize,
        ),
    decreases hs.len(),
{
    let m = usize::MAX + 1;
    if hs.len() == 0 {
        lemma_wrap_is_mod(line + delta, line.wrapping_add(delta) as int);
    } else {
        let h = hs[0];
        assert(h.old_start + h.old_len <= line);
        assert(h.old_start.wrapping_add(h.old_len) == h.old_start + h.old_len);
        let a = delta.wrapping_add(h.new_len);
        let d2 = a.wrapping_sub(h.old_len);
        lemma_wrap_is_mod(delta + h.new_len, a as int);
        lemma_wrap_is_mod(a - h.old_len, d2 as int);
        let rest = hs.drop_first();
        assert forall|k: int| 0 <= k < rest.len() implies (#[trigger] rest[k]).old_start
            + rest[k].old_len <= line by {
            assert(rest[k] == hs[k + 1]);
        }
        lemma_translate_after_from(rest, line, d2);
        let base = line + hunk_shift(rest);
        vstd::arithmetic::div_mod::lemma_add_mod_noop_right(base, a - h.old_len, m);
        vstd::arithmetic::div_mod::lemma_add_mod_noop_right(
            base - h.old_len,
            delta + h.new_len,
            m,
        );
        assert(base + (a - h.old_len) == (base - h.old_len) + a);
        assert(line + delta + hunk_shift(hs) == (base - h.old_len) + (delta + h.new_len));
    }
}

/// A line after every hunk moves by the total shift of the hunks.
pub proof fn lemma_translate_after_hunks(hs: Seq<Hunk>, line: usize)
    requires
        forall|k: int| 0 <= k < hs.len() ==> (#[trigger] hs[k]).old_start + hs[k].old_len <= line,
        0 <= line + hunk_shift(hs) <= usize::MAX,
    ensures
        translate_from(hs, line, 0) == Some((line + hunk_shift(hs)) as usize),
{
    lemma_translate_after_from(hs, line, 0);
    vstd::arithmetic::div_mod::lemma_small_mod(
        (line + hunk_shift(hs)) as nat,
        (usize::MAX + 1) as nat,
    );
}

/// A line before every hunk keeps its number.
pub proof fn lemma_translate_before_hunks(hs: Seq<Hunk>, line: usize)
    requires
        forall|k: int| 0 <= k < hs.len() ==> line < (#[trigger] hs[k]).old_start,
    ensures
        translate_from(hs, line, 0) == Some(line),
{
    if hs.len() > 0 {
        assert(line < hs[0].old_start);
    }
}

/// A line inside the old span of the first hunk that reaches it maps to
/// the same offset in the new span, or is deleted where the new span is
/// shorter.
pub proof fn lemma_translate_inside_hunk(hs: Seq<Hunk>, line: usize, j: int)
    requires
        0 <= j < hs.len(),
        forall|k: int| 0 <= k < j ==> (#[trigger] hs[k]).old_start + hs[k].old_len <= line,
        hs[j].old_start <= line < hs[j].old_start + hs[j].old_len <= usize::MAX,
        hs[j].new_start + hs[j].new_len <= usize::MAX,
    ensures
        translate_from(hs, line, 0) == (if line - hs[j].old_start < hs[j].new_len {
            Some((hs[j].new_start + (line - hs[j].old_start)) as usize)
        } else {
            None
        }),
{
    lemma_translate_inside_from(hs, line, j, 0);
}

proof fn lemma_translate_inside_from(hs: Seq<Hunk>, line: usize, j: int, delta: usize)
    requires
        0 <= j < hs.len(),
        forall|k: int| 0 <= k < j ==> (#[trigger] hs[k]).old_start + hs[k].old_len <= line,
        hs[j].old_start <= line < hs[j].old_start + hs[j].old_len <= usize::MAX,
        hs[j].new_start + hs[j].new_len <= usize::MAX,
    ensures
        translate_from(hs, line, delta) == (if line - hs[j].old_start < hs[j].new_len {
            Some((hs[j].new_start + (line - hs[j].old_start)) as usize)
        } else {
            None
        }),
    decreases j,
{
    let h = hs[0];
    if j == 0 {
        assert(h.old_start.wrapping_add(h.old_len) == h.old_start + h.old_len);
    } else {
        assert(h.old_start + h.old_len <= line);
        let rest = hs.drop_first();
        assert forall|k: int| 0 <= k < j - 1 implies (#[trigger] rest[k]).old_start
            + rest[k].old_len <= line by {
            assert(rest[k] == hs[k + 1]);
        }
        assert(rest[j - 1] == hs[j]);
        lemma_translate_inside_from(rest, line, j - 1, delta.wrapping_add(h.new_len).wrapping_sub(h.old_len));
    }
}

} // verus!
