//! Git history: the commands the library asks git to run, and how their
//! output is read back into commits and file changes.

use vstd::prelude::*;
use crate::error::TrailError;
use crate::numbers::{
    decimal, is_digit, lemma_decimal_value, lemma_parse_decimal, parse_usize,
    parse_usize_chars, push_decimal,
};
use crate::text::{
    contains, contains_str, filter_map, is_whitespace, lemma_contains_concat, lemma_filter_map_push,
    lemma_filter_map_step, lemma_lines_push, lemma_split_extend, lemma_split_join, lemma_split_len,
    lemma_split_single, lemma_splitn_join, lemma_splitn_len, lemma_splitn_one,
    lemma_filter_map_concat, lemma_filter_map_cons, lemma_split_concat, lemma_trim_after_newline,
    lemma_trim_newline, lines, lines_chars, owned, split, split_chars, splitn, splitn_chars,
    string_of, string_views, strip_cr, sub_chars, to_chars, trim, trim_bounds, views,
};

verus! {

/// One file touched by a commit, as `git diff-tree --numstat` reports it.
#[derive(Debug, Clone)]
pub struct FileChange {
    pub path: String,
    pub additions: usize,
    pub deletions: usize,
}

/// A file change as plain values.
pub struct FileChangeModel {
    pub path: Seq<char>,
    pub additions: usize,
    pub deletions: usize,
}

impl View for FileChange {
    type V = FileChangeModel;

    open spec fn view(&self) -> FileChangeModel {
        FileChangeModel { path: self.path@, additions: self.additions, deletions: self.deletions }
    }
}

/// The views of a sequence of file changes.
pub open spec fn change_views(v: Seq<FileChange>) -> Seq<FileChangeModel> {
    v.map_values(|f: FileChange| f@)
}

/// The header fields of one `git log` entry.
#[derive(Debug)]
pub struct LogEntry {
    pub sha: String,
    pub short_sha: String,
    pub author: String,
    pub date: String,
    pub subject: String,
    pub body: String,
}

/// A log entry as plain values.
pub struct LogEntryModel {
    pub sha: Seq<char>,
    pub short_sha: Seq<char>,
    pub author: Seq<char>,
    pub date: Seq<char>,
    pub subject: Seq<char>,
    pub body: Seq<char>,
}

impl View for LogEntry {
    type V = LogEntryModel;

    open spec fn view(&self) -> LogEntryModel {
        LogEntryModel {
            sha: self.sha@,
            short_sha: self.short_sha@,
            author: self.author@,
            date: self.date@,
            subject: self.subject@,
            body: self.body@,
        }
    }
}

/// The views of a sequence of log entries.
pub open spec fn entry_views(v: Seq<LogEntry>) -> Seq<LogEntryModel> {
    v.map_values(|e: LogEntry| e@)
}

/// A commit with its file statistics.
#[derive(Debug, Clone)]
pub struct CommitInfo {
    pub sha: String,
    pub short_sha: String,
    pub author: String,
    pub date: String,
    pub subject: String,
    pub body: String,
    pub files_changed: Vec<FileChange>,
    pub insertions: usize,
    pub deletions: usize,
}

/// Total lines added over a list of file changes.
pub open spec fn total_additions(fs: Seq<FileChangeModel>) -> nat
    decreases fs.len(),
{
    if fs.len() == 0 {
        0
    } else {
        total_additions(fs.drop_last()) + fs.last().additions as nat
    }
}

/// Total lines deleted over a list of file changes.
pub open spec fn total_deletions(fs: Seq<FileChangeModel>) -> nat
    decreases fs.len(),
{
    if fs.len() == 0 {
        0
    } else {
        total_deletions(fs.drop_last()) + fs.last().deletions as nat
    }
}

impl CommitInfo {
    /// The commit's totals are the sums over its file changes.
    pub open spec fn wf(&self) -> bool {
        &&& self.insertions == total_additions(change_views(self.files_changed@))
        &&& self.deletions == total_deletions(change_views(self.files_changed@))
    }

    /// The commit's header fields.
    pub open spec fn entry(&self) -> LogEntryModel {
        LogEntryModel {
            sha: self.sha@,
            short_sha: self.short_sha@,
            author: self.author@,
            date: self.date@,
            subject: self.subject@,
            body: self.body@,
        }
    }
}

// ---------------------------------------------------------------------
// The git command lines
// ---------------------------------------------------------------------

/// The `--format` argument: full hash, short hash, author name, author
/// date, subject and body separated by unit separators, each entry closed
/// by a NUL.
pub open spec fn log_format() -> Seq<char> {
    "--format=%H\x1f%h\x1f%an\x1f%ai\x1f%s\x1f%b%x00"@
}

/// A bound of the history: a commit that git can name, or a date.
#[derive(Debug)]
pub enum Bound {
    /// A ref or revision that names a commit.
    Ref(String),
    /// A date, in any form git's `--since` and `--until` take.
    Date(String),
}

/// A bound as plain values.
pub enum BoundModel {
    Ref(Seq<char>),
    Date(Seq<char>),
}

impl View for Bound {
    type V = BoundModel;

    open spec fn view(&self) -> BoundModel {
        match self {
            Bound::Ref(r) => BoundModel::Ref(r@),
            Bound::Date(d) => BoundModel::Date(d@),
        }
    }
}

/// The view of an optional bound.
pub open spec fn bound_view(b: Option<Bound>) -> Option<BoundModel> {
    match b {
        Some(x) => Some(x@),
        None => None,
    }
}

/// The bound that a `--since` or `--until` text gives: a ref where git
/// resolves it to a commit, a date otherwise.
pub fn bound_of(text: &str, names_commit: bool) -> (b: Bound)
    ensures
        b@ == (if names_commit { BoundModel::Ref(text@) } else { BoundModel::Date(text@) }),
{
    if names_commit {
        Bound::Ref(owned(text))
    } else {
        Bound::Date(owned(text))
    }
}

/// The `git rev-parse` arguments that ask whether `text` names a commit.
pub fn names_commit_args(text: &str) -> (args: Vec<String>)
    ensures
        string_views(args@) == seq!["rev-parse"@, "--verify"@, "--quiet"@, text@ + "^{commit}"@],
{
    let mut args: Vec<String> = Vec::new();
    args.push(owned("rev-parse"));
    args.push(owned("--verify"));
    args.push(owned("--quiet"));
    let mut a = owned(text);
    a.append("^{commit}");
    args.push(a);
    assert(string_views(args@) =~= seq!["rev-parse"@, "--verify"@, "--quiet"@, text@ + "^{commit}"@]);
    args
}

/// The date option that a bound gives, where it is a date.
pub open spec fn date_option(option: Seq<char>, b: Option<BoundModel>) -> Seq<Seq<char>> {
    match b {
        Some(BoundModel::Date(d)) => seq![option + d],
        _ => Seq::empty(),
    }
}

/// The revision range that ref bounds give: commits after the `since`
/// commit up to the `until` commit, or up to `HEAD`; none without refs.
pub open spec fn revision_range(since: Option<BoundModel>, until: Option<BoundModel>) -> Seq<Seq<char>> {
    match (since, until) {
        (Some(BoundModel::Ref(r)), Some(BoundModel::Ref(u))) => seq![r + ".."@ + u],
        (Some(BoundModel::Ref(r)), _) => seq![r + "..HEAD"@],
        (_, Some(BoundModel::Ref(u))) => seq![u],
        _ => Seq::empty(),
    }
}

/// Arguments of `git log` for the last `limit` commits within the bounds:
/// date bounds as `--since` and `--until`, ref bounds as a revision range.
pub open spec fn log_args_spec(limit: nat, since: Option<BoundModel>, until: Option<BoundModel>) -> Seq<Seq<char>> {
    seq!["log"@, "-"@ + decimal(limit), log_format()] + date_option("--since="@, since) + date_option(
        "--until="@,
        until,
    ) + revision_range(since, until)
}

fn push_date_option(args: &mut Vec<String>, option: &str, b: &Option<Bound>)
    ensures
        string_views(final(args)@) == string_views(old(args)@) + date_option(option@, bound_view(*b)),
{
    let ghost before = string_views(args@);
    match b {
        Some(Bound::Date(d)) => {
            let mut a = owned(option);
            a.append(d.as_str());
            args.push(a);
        },
        _ => {},
    }
    assert(string_views(args@) =~= before + date_option(option@, bound_view(*b)));
}

fn push_revision_range(args: &mut Vec<String>, since: &Option<Bound>, until: &Option<Bound>)
    ensures
        string_views(final(args)@) == string_views(old(args)@) + revision_range(
            bound_view(*since),
            bound_view(*until),
        ),
{
    let ghost before = string_views(args@);
    match (since, until) {
        (Some(Bound::Ref(r)), Some(Bound::Ref(u))) => {
            let mut a = owned(r.as_str());
            a.append("..");
            a.append(u.as_str());
            args.push(a);
        },
        (Some(Bound::Ref(r)), _) => {
            let mut a = owned(r.as_str());
            a.append("..HEAD");
            args.push(a);
        },
        (_, Some(Bound::Ref(u))) => {
            args.push(owned(u.as_str()));
        },
        _ => {},
    }
    assert(string_views(args@) =~= before + revision_range(bound_view(*since), bound_view(*until)));
}

/// The `git log` arguments that list the last `limit` commits within the
/// bounds.
pub fn log_args(limit: usize, since: &Option<Bound>, until: &Option<Bound>) -> (args: Vec<String>)
    ensures
        string_views(args@) == log_args_spec(limit as nat, bound_view(*since), bound_view(*until)),
{
    let mut args: Vec<String> = Vec::new();
    args.push(owned("log"));
    let mut count = owned("-");
    push_decimal(&mut count, limit);
    args.push(count);
    args.push(owned("--format=%H\x1f%h\x1f%an\x1f%ai\x1f%s\x1f%b%x00"));
    assert(string_views(args@) =~= seq!["log"@, "-"@ + decimal(limit as nat), log_format()]);
    push_date_option(&mut args, "--since=", since);
    push_date_option(&mut args, "--until=", until);
    push_revision_range(&mut args, since, until);
    args
}

/// The `git log` arguments that show the single commit `sha`.
pub fn show_args(sha: &str) -> (args: Vec<String>)
    ensures
        string_views(args@) == seq!["log"@, "-1"@, log_format(), sha@],
{
    let mut args: Vec<String> = Vec::new();
    args.push(owned("log"));
    args.push(owned("-1"));
    args.push(owned("--format=%H\x1f%h\x1f%an\x1f%ai\x1f%s\x1f%b%x00"));
    args.push(owned(sha));
    assert(string_views(args@) =~= seq!["log"@, "-1"@, log_format(), sha@]);
    args
}

/// The `git diff-tree` arguments that list the files changed by `sha`,
/// a root commit included, with their line counts.
pub fn numstat_args(sha: &str) -> (args: Vec<String>)
    ensures
        string_views(args@) == seq![
            "diff-tree"@,
            "--root"@,
            "--no-commit-id"@,
            "-r"@,
            "--numstat"@,
            sha@,
        ],
{
    let mut args: Vec<String> = Vec::new();
    args.push(owned("diff-tree"));
    args.push(owned("--root"));
    args.push(owned("--no-commit-id"));
    args.push(owned("-r"));
    args.push(owned("--numstat"));
    args.push(owned(sha));
    assert(string_views(args@) =~= seq![
        "diff-tree"@,
        "--root"@,
        "--no-commit-id"@,
        "-r"@,
        "--numstat"@,
        sha@,
    ]);
    args
}

// ---------------------------------------------------------------------
// Reading git's output
// ---------------------------------------------------------------------

/// The phrases by which git says that a repository has no commits yet.
pub open spec fn is_empty_history_message(stderr: Seq<char>) -> bool {
    ||| contains(stderr, "does not have any commits yet"@)
    ||| contains(stderr, "your current branch"@)
    ||| contains(stderr, "No commits yet"@)
}

/// Whether git's error output says that the history is empty, which the
/// library reports as no commits rather than as an error.
pub fn is_empty_history_error(stderr: &str) -> (b: bool)
    ensures
        b == is_empty_history_message(stderr@),
{
    contains_str(stderr, "does not have any commits yet") || contains_str(stderr, "your current branch")
        || contains_str(stderr, "No commits yet")
}

/// The number that a numstat column holds, `0` where it is no number
/// (git writes `-` for binary files).
pub open spec fn count_or_zero(s: Seq<char>) -> usize {
    match parse_usize(s) {
        Some(n) => n,
        None => 0,
    }
}

/// One `--numstat` line: added, deleted and path, tab-separated; lines
/// with fewer than three fields are no file change.
pub open spec fn numstat_line(l: Seq<char>) -> Option<FileChangeModel> {
    let parts = split(l, '\t');
    if parts.len() >= 3 {
        Some(FileChangeModel {
            path: parts[2],
            additions: count_or_zero(parts[0]),
            deletions: count_or_zero(parts[1]),
        })
    } else {
        None
    }
}

/// The file changes that a `--numstat` listing reports, in order.
pub open spec fn numstat_changes(text: Seq<char>) -> Seq<FileChangeModel> {
    filter_map(lines(text), |l: Seq<char>| numstat_line(l))
}

fn count_of(v: &Vec<char>) -> (n: usize)
    ensures
        n == count_or_zero(v@),
{
    match parse_usize_chars(v) {
        Some(n) => n,
        None => 0,
    }
}

/// Reads a `git diff-tree --numstat` listing; never fails.
pub fn parse_numstat(text: &str) -> (r: Result<Vec<FileChange>, TrailError>)
    ensures
        r is Ok,
        r matches Ok(changes) && change_views(changes@) == numstat_changes(text@),
{
    let chars = to_chars(text);
    let ls = lines_chars(&chars);
    let ghost lv = views(ls@);
    let ghost f = |l: Seq<char>| numstat_line(l);
    let mut changes: Vec<FileChange> = Vec::new();
    let mut k: usize = 0;
    assert(lv.take(0) =~= Seq::<Seq<char>>::empty());
    assert(change_views(changes@) =~= filter_map(lv.take(0), f));
    while k < ls.len()
        invariant
            k <= ls.len(),
            lv == views(ls@),
            lv == lines(text@),
            f == (|l: Seq<char>| numstat_line(l)),
            change_views(changes@) == filter_map(lv.take(k as int), f),
        decreases ls.len() - k,
    {
        proof {
            lemma_filter_map_step(lv, k as int, f);
        }
        let parts = split_chars(&ls[k], '\t');
        assert(views(parts@) == split(lv[k as int], '\t'));
        if parts.len() >= 3 {
            let ghost before = change_views(changes@);
            let fc = FileChange {
                path: string_of(&parts[2], 0, parts[2].len()),
                additions: count_of(&parts[0]),
                deletions: count_of(&parts[1]),
            };
            assert(parts@[2]@.subrange(0, parts@[2]@.len() as int) =~= parts@[2]@);
            changes.push(fc);
            assert(change_views(changes@) =~= before.push(fc@));
        }
        k = k + 1;
    }
    assert(lv.take(ls.len() as int) =~= lv);
    Ok(changes)
}

/// One `git log` entry in the format of [`log_format`]: trimmed, empty
/// entries and those with fewer than five fields skipped, the body empty
/// where it is missing.
pub open spec fn log_entry(e: Seq<char>) -> Option<LogEntryModel> {
    let t = trim(e);
    let parts = splitn(t, 6, '\x1f');
    if t.len() == 0 || parts.len() < 5 {
        None
    } else {
        Some(LogEntryModel {
            sha: parts[0],
            short_sha: parts[1],
            author: parts[2],
            date: parts[3],
            subject: parts[4],
            body: if parts.len() > 5 { parts[5] } else { Seq::empty() },
        })
    }
}

/// The entries of a `git log` listing in the format of [`log_format`],
/// in the order git printed them.
pub open spec fn log_entries(text: Seq<char>) -> Seq<LogEntryModel> {
    filter_map(split(text, '\0'), |e: Seq<char>| log_entry(e))
}

fn whole_string(v: &Vec<char>) -> (s: String)
    ensures
        s@ == v@,
{
    let s = string_of(v, 0, v.len());
    assert(v@.subrange(0, v@.len() as int) =~= v@);
    s
}

/// Reads the entries of a `git log` listing in the format of [`log_format`].
pub fn parse_log_output(text: &str) -> (entries: Vec<LogEntry>)
    ensures
        entry_views(entries@) == log_entries(text@),
{
    let chars = to_chars(text);
    let pieces = split_chars(&chars, '\0');
    let ghost pv = views(pieces@);
    let ghost f = |e: Seq<char>| log_entry(e);
    let mut entries: Vec<LogEntry> = Vec::new();
    let mut k: usize = 0;
    assert(pv.take(0) =~= Seq::<Seq<char>>::empty());
    assert(entry_views(entries@) =~= filter_map(pv.take(0), f));
    while k < pieces.len()
        invariant
            k <= pieces.len(),
            pv == views(pieces@),
            pv == split(text@, '\0'),
            f == (|e: Seq<char>| log_entry(e)),
            entry_views(entries@) == filter_map(pv.take(k as int), f),
        decreases pieces.len() - k,
    {
        proof {
            lemma_filter_map_step(pv, k as int, f);
        }
        let piece = &pieces[k];
        let (a, b) = trim_bounds(piece, 0, piece.len());
        assert(piece@.subrange(0, piece@.len() as int) =~= piece@);
        let t = sub_chars(piece, a, b);
        let parts = splitn_chars(&t, 6, '\x1f');
        proof {
            lemma_splitn_len(t@, 6, '\x1f');
        }
        if a < b && parts.len() >= 5 {
            let ghost before = entry_views(entries@);
            let body = if parts.len() > 5 {
                whole_string(&parts[5])
            } else {
                String::new()
            };
            let entry = LogEntry {
                sha: whole_string(&parts[0]),
                short_sha: whole_string(&parts[1]),
                author: whole_string(&parts[2]),
                date: whole_string(&parts[3]),
                subject: whole_string(&parts[4]),
                body,
            };
            entries.push(entry);
            assert(entry_views(entries@) =~= before.push(entry@));
        }
        k = k + 1;
    }
    assert(pv.take(pieces.len() as int) =~= pv);
    entries
}

// ---------------------------------------------------------------------
// Commits
// ---------------------------------------------------------------------

proof fn lemma_totals_prefix(fs: Seq<FileChangeModel>, k: int)
    requires
        0 <= k <= fs.len(),
    ensures
        total_additions(fs.take(k)) <= total_additions(fs),
        total_deletions(fs.take(k)) <= total_deletions(fs),
    decreases fs.len(),
{
    if k < fs.len() {
        assert(fs.drop_last().take(k) =~= fs.take(k));
        lemma_totals_prefix(fs.drop_last(), k);
    } else {
        assert(fs.take(k) =~= fs);
    }
}

/// The commit that a log entry and the files it changed make: its totals
/// are the sums of the files' counts.
pub fn commit_from(entry: LogEntry, files: Vec<FileChange>) -> (c: CommitInfo)
    requires
        total_additions(change_views(files@)) <= usize::MAX,
        total_deletions(change_views(files@)) <= usize::MAX,
    ensures
        c.entry() == entry@,
        c.files_changed@ == files@,
        c.wf(),
{
    let ghost fv = change_views(files@);
    let mut insertions: usize = 0;
    let mut deletions: usize = 0;
    let mut k: usize = 0;
    assert(fv.take(0) =~= Seq::<FileChangeModel>::empty());
    while k < files.len()
        invariant
            k <= files.len(),
            fv == change_views(files@),
            total_additions(fv) <= usize::MAX,
            total_deletions(fv) <= usize::MAX,
            insertions == total_additions(fv.take(k as int)),
            deletions == total_deletions(fv.take(k as int)),
        decreases files.len() - k,
    {
        assert(fv.take(k + 1).drop_last() =~= fv.take(k as int));
        assert(fv.take(k + 1).last() == files@[k as int]@);
        proof {
            lemma_totals_prefix(fv, k + 1);
        }
        insertions = insertions + files[k].additions;
        deletions = deletions + files[k].deletions;
        k = k + 1;
    }
    assert(fv.take(files.len() as int) =~= fv);
    CommitInfo {
        sha: entry.sha,
        short_sha: entry.short_sha,
        author: entry.author,
        date: entry.date,
        subject: entry.subject,
        body: entry.body,
        files_changed: files,
        insertions,
        deletions,
    }
}

fn totals_fit(files: &Vec<FileChange>) -> (r: (bool, bool))
    ensures
        r.0 == (total_additions(change_views(files@)) <= usize::MAX),
        r.1 == (total_deletions(change_views(files@)) <= usize::MAX),
{
    let ghost fv = change_views(files@);
    let mut adds: usize = 0;
    let mut dels: usize = 0;
    let mut adds_ok = true;
    let mut dels_ok = true;
    let mut k: usize = 0;
    assert(fv.take(0) =~= Seq::<FileChangeModel>::empty());
    while k < files.len()
        invariant
            k <= files.len(),
            fv == change_views(files@),
            adds_ok ==> adds == total_additions(fv.take(k as int)),
            !adds_ok ==> total_additions(fv.take(k as int)) > usize::MAX,
            dels_ok ==> dels == total_deletions(fv.take(k as int)),
            !dels_ok ==> total_deletions(fv.take(k as int)) > usize::MAX,
        decreases files.len() - k,
    {
        assert(fv.take(k + 1).drop_last() =~= fv.take(k as int));
        assert(fv.take(k + 1).last() == files@[k as int]@);
        if adds_ok {
            match adds.checked_add(files[k].additions) {
                Some(a) => {
                    adds = a;
                },
                None => {
                    adds_ok = false;
                },
            }
        }
        if dels_ok {
            match dels.checked_add(files[k].deletions) {
                Some(d) => {
                    dels = d;
                },
                None => {
                    dels_ok = false;
                },
            }
        }
        k = k + 1;
    }
    assert(fv.take(files.len() as int) =~= fv);
    (adds_ok, dels_ok)
}

/// The commit that a log entry and the files it changed make, where its
/// totals fit in a `usize`; `None` where they do not.
pub fn try_commit_from(entry: LogEntry, files: Vec<FileChange>) -> (r: Option<CommitInfo>)
    ensures
        r is Some <==> (total_additions(change_views(files@)) <= usize::MAX && total_deletions(
            change_views(files@),
        ) <= usize::MAX),
        r matches Some(c) ==> c.entry() == entry@ && c.files_changed@ == files@ && c.wf(),
{
    let (a, d) = totals_fit(&files);
    if a && d {
        Some(commit_from(entry, files))
    } else {
        None
    }
}

/// The file changes of a commit from `git diff-tree --numstat`: those its
/// output lists where git succeeded, none where it failed.
pub fn changes_from_numstat(success: bool, stdout: &str) -> (r: Result<Vec<FileChange>, TrailError>)
    ensures
        r matches Ok(changes) && (if success {
            change_views(changes@) == numstat_changes(stdout@)
        } else {
            changes@.len() == 0
        }),
{
    if success {
        parse_numstat(stdout)
    } else {
        Ok(Vec::new())
    }
}

/// The message of the error for a commit that does not exist.
pub open spec fn not_found_message(sha: Seq<char>) -> Seq<char> {
    "Commit "@ + sha + " not found"@
}

/// The error for a commit `sha` that git does not know.
pub fn commit_not_found(sha: &str) -> (e: TrailError)
    ensures
        e matches TrailError::NotFound(m) && m@ == not_found_message(sha@),
{
    let mut m = owned("Commit ");
    m.append(sha);
    m.append(" not found");
    TrailError::NotFound(m)
}

/// The commit that a lookup of `sha` found: the first one listed, or an
/// error when none was.
pub fn get_commit(commits: Vec<CommitInfo>, sha: &str) -> (r: Result<CommitInfo, TrailError>)
    ensures
        commits@.len() > 0 ==> r == Ok::<CommitInfo, TrailError>(commits@[0]),
        commits@.len() == 0 ==> (r matches Err(TrailError::NotFound(m)) && m@ == not_found_message(sha@)),
{
    let mut commits = commits;
    if commits.len() == 0 {
        Err(commit_not_found(sha))
    } else {
        Ok(commits.remove(0))
    }
}

/// The outcome of a `git log` that failed: no commits when git says the
/// history is empty, a validation error otherwise.
pub fn failed_log(stderr: &str) -> (r: Result<Vec<CommitInfo>, TrailError>)
    ensures
        is_empty_history_message(stderr@) ==> (r matches Ok(v) && v@.len() == 0),
        !is_empty_history_message(stderr@) ==> (r matches Err(TrailError::Validation(m))
            && m@ == "Failed to read git log"@),
{
    if is_empty_history_error(stderr) {
        Ok(Vec::new())
    } else {
        Err(TrailError::Validation(owned("Failed to read git log")))
    }
}

// ---------------------------------------------------------------------
// Reading back what git writes
// ---------------------------------------------------------------------

/// An entry as git writes it in the format of [`log_format`]: the six
/// fields separated by unit separators.
pub open spec fn log_record(e: LogEntryModel) -> Seq<char> {
    e.sha + seq!['\x1f'] + (e.short_sha + seq!['\x1f'] + (e.author + seq!['\x1f'] + (e.date + seq![
        '\x1f',
    ] + (e.subject + seq!['\x1f'] + e.body))))
}

/// A listing as `git log` writes it: each entry closed by a NUL, then a
/// newline.
pub open spec fn log_listing(es: Seq<LogEntryModel>) -> Seq<char>
    decreases es.len(),
{
    if es.len() == 0 {
        Seq::empty()
    } else {
        log_listing(es.drop_last()) + log_record(es.last()) + seq!['\0', '\n']
    }
}

/// An entry that a listing carries unchanged: no field holds a NUL, the
/// fields before the body hold no unit separator, and the entry neither
/// starts nor ends with whitespace (which the reading trims).
pub open spec fn carried_entry(e: LogEntryModel) -> bool {
    &&& !e.sha.contains('\x1f') && !e.short_sha.contains('\x1f') && !e.author.contains('\x1f')
    &&& !e.date.contains('\x1f') && !e.subject.contains('\x1f')
    &&& !e.sha.contains('\0') && !e.short_sha.contains('\0') && !e.author.contains('\0')
    &&& !e.date.contains('\0') && !e.subject.contains('\0') && !e.body.contains('\0')
    &&& e.sha.len() > 0 ==> !is_whitespace(e.sha[0])
    &&& e.body.len() > 0 ==> !is_whitespace(e.body.last())
}

proof fn lemma_log_record_read(lead: Seq<char>, e: LogEntryModel)
    requires
        lead == Seq::<char>::empty() || lead == seq!['\n'],
        carried_entry(e),
    ensures
        log_entry(lead + log_record(e)) == Some(e),
        !log_record(e).contains('\0'),
{
    let us = seq!['\x1f'];
    let r4 = e.subject + us + e.body;
    let r3 = e.date + us + r4;
    let r2 = e.author + us + r3;
    let r1 = e.short_sha + us + r2;
    let r = e.sha + us + r1;
    assert(r == log_record(e));
    assert(!us.contains('\0')) by {
        if us.contains('\0') {
            let i = choose|i: int| 0 <= i < us.len() && us[i] == '\0';
            assert(us[i] == '\x1f');
        }
    }
    lemma_contains_concat(e.subject, us, '\0');
    lemma_contains_concat(e.subject + us, e.body, '\0');
    lemma_contains_concat(e.date, us, '\0');
    lemma_contains_concat(e.date + us, r4, '\0');
    lemma_contains_concat(e.author, us, '\0');
    lemma_contains_concat(e.author + us, r3, '\0');
    lemma_contains_concat(e.short_sha, us, '\0');
    lemma_contains_concat(e.short_sha + us, r2, '\0');
    lemma_contains_concat(e.sha, us, '\0');
    lemma_contains_concat(e.sha + us, r1, '\0');
    assert(!is_whitespace('\x1f'));
    if e.sha.len() > 0 {
        assert(r[0] == e.sha[0]);
    } else {
        assert(r[0] == '\x1f');
    }
    if e.body.len() > 0 {
        assert(r.last() == e.body.last());
    } else {
        assert(r.last() == '\x1f');
    }
    lemma_trim_after_newline(lead, r);
    lemma_splitn_join(e.sha, r1, 6, '\x1f');
    lemma_splitn_join(e.short_sha, r2, 5, '\x1f');
    lemma_splitn_join(e.author, r3, 4, '\x1f');
    lemma_splitn_join(e.date, r4, 3, '\x1f');
    lemma_splitn_join(e.subject, e.body, 2, '\x1f');
    lemma_splitn_one(e.body, '\x1f');
    let parts = splitn(r, 6, '\x1f');
    assert(parts =~= seq![e.sha, e.short_sha, e.author, e.date, e.subject, e.body]);
}

/// Reading a `git log` listing gives back the entries that git wrote, in
/// order, for entries that the listing carries unchanged.
pub proof fn lemma_log_roundtrip(es: Seq<LogEntryModel>)
    requires
        forall|i: int| 0 <= i < es.len() ==> carried_entry(#[trigger] es[i]),
    ensures
        log_entries(log_listing(es)) == es,
        split(log_listing(es), '\0').last() == (if es.len() == 0 {
            Seq::<char>::empty()
        } else {
            seq!['\n']
        }),
    decreases es.len(),
{
    let f = |x: Seq<char>| log_entry(x);
    if es.len() == 0 {
        let s0 = seq![Seq::<char>::empty()];
        assert(log_listing(es) =~= Seq::<char>::empty());
        assert(split(log_listing(es), '\0') =~= s0);
        assert(trim(Seq::<char>::empty()) =~= Seq::<char>::empty());
        assert(log_entry(Seq::<char>::empty()) is None);
        assert(s0.drop_last() =~= Seq::<Seq<char>>::empty());
        assert(filter_map(s0.drop_last(), f) =~= Seq::<LogEntryModel>::empty());
        assert(filter_map(s0, f) =~= Seq::<LogEntryModel>::empty());
        assert(log_entries(log_listing(es)) =~= es);
    } else {
        let es1 = es.drop_last();
        let e = es.last();
        assert forall|i: int| 0 <= i < es1.len() implies carried_entry(#[trigger] es1[i]) by {
            assert(es1[i] == es[i]);
        }
        lemma_log_roundtrip(es1);
        let t1 = log_listing(es1);
        let r = log_record(e);
        let p = split(t1, '\0');
        lemma_split_len(t1, '\0');
        let lead = p.last();
        lemma_log_record_read(lead, e);
        lemma_split_extend(t1, r, '\0');
        let q = split(t1 + r, '\0');
        assert(q == p.update(p.len() - 1, lead + r));
        let t = log_listing(es);
        assert(t =~= (t1 + r) + seq!['\0'] + seq!['\n']);
        lemma_split_join(t1 + r, seq!['\n'], '\0');
        assert(!seq!['\n'].contains('\0')) by {
            if seq!['\n'].contains('\0') {
                let i = choose|i: int| 0 <= i < seq!['\n'].len() && seq!['\n'][i] == '\0';
                assert(seq!['\n'][i] == '\n');
            }
        }
        lemma_split_single(seq!['\n'], '\0');
        assert(split(t, '\0') == q + seq![seq!['\n']]);
        assert(split(t, '\0') =~= q.push(seq!['\n']));
        // The newline after the last entry reads as no entry.
        assert(trim(seq!['\n']) =~= Seq::<char>::empty()) by {
            assert(seq!['\n'].drop_first() =~= Seq::<char>::empty());
        }
        assert(log_entry(seq!['\n']) is None);
        lemma_filter_map_push(q, seq!['\n'], f);
        // The piece holding the entry reads as the entry.
        assert(q =~= p.drop_last().push(lead + r));
        lemma_filter_map_push(p.drop_last(), lead + r, f);
        // What came before it reads as before.
        assert(p =~= p.drop_last().push(lead));
        if lead.len() == 0 {
            assert(trim(lead) =~= Seq::<char>::empty());
        } else {
            assert(trim(lead) =~= Seq::<char>::empty()) by {
                assert(lead.drop_first() =~= Seq::<char>::empty());
            }
        }
        assert(log_entry(lead) is None);
        lemma_filter_map_push(p.drop_last(), lead, f);
        assert(filter_map(p, f) == es1);
        assert(es1.push(e) =~= es);
        assert(log_entries(t) == filter_map(split(t, '\0'), f));
    }
}

/// A file change as `git diff-tree --numstat` writes it.
pub open spec fn numstat_record(f: FileChangeModel) -> Seq<char> {
    decimal(f.additions as nat) + seq!['\t'] + (decimal(f.deletions as nat) + seq!['\t'] + f.path)
}

/// A numstat listing: one line per file change.
pub open spec fn numstat_listing(fs: Seq<FileChangeModel>) -> Seq<char>
    decreases fs.len(),
{
    if fs.len() == 0 {
        Seq::empty()
    } else {
        numstat_listing(fs.drop_last()) + numstat_record(fs.last()) + seq!['\n']
    }
}

/// A file change that a numstat line carries unchanged: its path holds no
/// tab or newline and does not end with a carriage return.
pub open spec fn carried_change(f: FileChangeModel) -> bool {
    &&& !f.path.contains('\t')
    &&& !f.path.contains('\n')
    &&& !(f.path.len() > 0 && f.path.last() == '\r')
}

proof fn lemma_decimal_has_no(n: nat, c: char)
    requires
        !is_digit(c),
    ensures
        !decimal(n).contains(c),
{
    lemma_decimal_value(n);
    if decimal(n).contains(c) {
        let i = choose|i: int| 0 <= i < decimal(n).len() && decimal(n)[i] == c;
        assert(is_digit(decimal(n)[i]));
    }
}

proof fn lemma_numstat_record_read(f: FileChangeModel)
    requires
        carried_change(f),
    ensures
        numstat_line(numstat_record(f)) == Some(f),
        !numstat_record(f).contains('\n'),
        strip_cr(numstat_record(f)) == numstat_record(f),
{
    let tab = seq!['\t'];
    let da = decimal(f.additions as nat);
    let dd = decimal(f.deletions as nat);
    let rest = dd + tab + f.path;
    let r = da + tab + rest;
    lemma_decimal_has_no(f.additions as nat, '\t');
    lemma_decimal_has_no(f.deletions as nat, '\t');
    lemma_decimal_has_no(f.additions as nat, '\n');
    lemma_decimal_has_no(f.deletions as nat, '\n');
    lemma_split_join(da, rest, '\t');
    lemma_split_join(dd, f.path, '\t');
    lemma_split_single(da, '\t');
    lemma_split_single(dd, '\t');
    lemma_split_single(f.path, '\t');
    let parts = split(r, '\t');
    assert(parts =~= seq![da, dd, f.path]);
    lemma_parse_decimal(f.additions);
    lemma_parse_decimal(f.deletions);
    assert(numstat_line(r) == Some(f));
    assert(!tab.contains('\n')) by {
        if tab.contains('\n') {
            let i = choose|i: int| 0 <= i < tab.len() && tab[i] == '\n';
            assert(tab[i] == '\t');
        }
    }
    lemma_contains_concat(dd, tab, '\n');
    lemma_contains_concat(dd + tab, f.path, '\n');
    lemma_contains_concat(da, tab, '\n');
    lemma_contains_concat(da + tab, rest, '\n');
    if f.path.len() > 0 {
        assert(r.last() == f.path.last());
    } else {
        assert(r.last() == '\t');
    }
}

/// Reading a numstat listing gives back the file changes written to it,
/// in order, for changes that a line carries unchanged.
pub proof fn lemma_numstat_roundtrip(fs: Seq<FileChangeModel>)
    requires
        forall|i: int| 0 <= i < fs.len() ==> carried_change(#[trigger] fs[i]),
    ensures
        numstat_changes(numstat_listing(fs)) == fs,
        numstat_listing(fs).len() == 0 || numstat_listing(fs).last() == '\n',
    decreases fs.len(),
{
    let g = |l: Seq<char>| numstat_line(l);
    if fs.len() == 0 {
        assert(numstat_listing(fs) =~= Seq::<char>::empty());
        assert(lines(Seq::<char>::empty()) =~= Seq::<Seq<char>>::empty());
        assert(numstat_changes(numstat_listing(fs)) =~= fs);
    } else {
        let fs1 = fs.drop_last();
        let f = fs.last();
        assert forall|i: int| 0 <= i < fs1.len() implies carried_change(#[trigger] fs1[i]) by {
            assert(fs1[i] == fs[i]);
        }
        lemma_numstat_roundtrip(fs1);
        lemma_numstat_record_read(f);
        let t1 = numstat_listing(fs1);
        let r = numstat_record(f);
        lemma_lines_push(t1, r);
        assert(numstat_listing(fs) == t1 + r + seq!['\n']);
        lemma_filter_map_push(lines(t1), r, g);
        assert(fs1.push(f) =~= fs);
    }
}

/// A listing as `git log` writes it from the records of its commits,
/// whatever they hold: each record closed by a NUL, then a newline. A
/// lookup of one commit by its hash writes that commit's record the same
/// way, as the listing of that one record.
pub open spec fn raw_listing(rs: Seq<Seq<char>>) -> Seq<char>
    decreases rs.len(),
{
    if rs.len() == 0 {
        Seq::empty()
    } else {
        raw_listing(rs.drop_last()) + (rs.last() + seq!['\0', '\n'])
    }
}

/// The entries that looking up each record on its own reads, one lookup
/// after another.
pub open spec fn entries_by_record(rs: Seq<Seq<char>>) -> Seq<LogEntryModel>
    decreases rs.len(),
{
    if rs.len() == 0 {
        Seq::empty()
    } else {
        entries_by_record(rs.drop_last()) + log_entries(raw_listing(seq![rs.last()]))
    }
}

proof fn lemma_log_entry_after_newline(x: Seq<char>)
    ensures
        log_entry(seq!['\n'] + x) == log_entry(x),
{
    lemma_trim_newline(x);
}

proof fn lemma_record_pieces(r: Seq<char>)
    ensures
        split(r + seq!['\0', '\n'], '\0') == split(r, '\0') + seq![seq!['\n']],
        raw_listing(seq![r]) == r + seq!['\0', '\n'],
{
    assert(r + seq!['\0', '\n'] =~= r + seq!['\0'] + seq!['\n']);
    lemma_split_join(r, seq!['\n'], '\0');
    assert(!seq!['\n'].contains('\0')) by {
        if seq!['\n'].contains('\0') {
            let k = choose|k: int| 0 <= k < seq!['\n'].len() && seq!['\n'][k] == '\0';
            assert(seq!['\n'][k] == '\n');
        }
    }
    lemma_split_single(seq!['\n'], '\0');
    assert(seq![r].drop_last() =~= Seq::<Seq<char>>::empty());
    assert(seq![r].last() == r);
    assert(raw_listing(Seq::<Seq<char>>::empty()) =~= Seq::<char>::empty());
    assert(Seq::<char>::empty() + (r + seq!['\0', '\n']) =~= r + seq!['\0', '\n']);
}

/// A history listing reads as the lookups of its commits one after
/// another: whatever the records hold, the entries read from the listing
/// are, in order, the entries that looking up each commit by its hash
/// reads.
pub proof fn lemma_listing_reads_as_lookups(rs: Seq<Seq<char>>)
    ensures
        log_entries(raw_listing(rs)) == entries_by_record(rs),
        rs.len() > 0 ==> split(raw_listing(rs), '\0').last() == seq!['\n'],
    decreases rs.len(),
{
    let f = |x: Seq<char>| log_entry(x);
    if rs.len() == 0 {
        let s0 = seq![Seq::<char>::empty()];
        assert(raw_listing(rs) =~= Seq::<char>::empty());
        assert(split(raw_listing(rs), '\0') =~= s0);
        assert(trim(Seq::<char>::empty()) =~= Seq::<char>::empty());
        assert(log_entry(Seq::<char>::empty()) is None);
        assert(s0.drop_last() =~= Seq::<Seq<char>>::empty());
        assert(filter_map(s0.drop_last(), f) =~= Seq::<LogEntryModel>::empty());
        assert(filter_map(s0, f) =~= Seq::<LogEntryModel>::empty());
    } else {
        let rs1 = rs.drop_last();
        let r = rs.last();
        let u = r + seq!['\0', '\n'];
        lemma_record_pieces(r);
        lemma_split_len(r, '\0');
        let q = split(u, '\0');
        assert(q.last() == seq!['\n']);
        assert(q.len() >= 2);
        let t1 = raw_listing(rs1);
        let t = raw_listing(rs);
        assert(t == t1 + u);
        if rs1.len() == 0 {
            assert(t1 =~= Seq::<char>::empty());
            assert(t =~= u);
            assert(entries_by_record(rs1) =~= Seq::<LogEntryModel>::empty());
            assert(entries_by_record(rs) =~= log_entries(u));
        } else {
            lemma_listing_reads_as_lookups(rs1);
            lemma_split_len(t1, '\0');
            let p = split(t1, '\0');
            assert(p.last() == seq!['\n']);
            lemma_split_concat(t1, u, '\0');
            let head = seq!['\n'] + q[0];
            assert(seq!['\n'] =~= p.last());
            assert(split(t, '\0') == p.drop_last() + seq![head] + q.drop_first());
            assert(split(t, '\0') =~= p.drop_last() + (seq![head] + q.drop_first()));
            lemma_filter_map_concat(p.drop_last(), seq![head] + q.drop_first(), f);
            lemma_filter_map_cons(head, q.drop_first(), f);
            lemma_log_entry_after_newline(q[0]);
            assert(q =~= seq![q[0]] + q.drop_first());
            lemma_filter_map_cons(q[0], q.drop_first(), f);
            // The newline that closes the earlier listing reads as no entry.
            assert(p =~= p.drop_last().push(seq!['\n']));
            assert(trim(seq!['\n']) =~= Seq::<char>::empty()) by {
                assert(seq!['\n'].drop_first() =~= Seq::<char>::empty());
            }
            assert(log_entry(seq!['\n']) is None);
            lemma_filter_map_push(p.drop_last(), seq!['\n'], f);
            assert(log_entries(t1) == filter_map(p, f));
            assert(log_entries(u) == filter_map(q, f));
            assert(log_entries(t) =~= log_entries(t1) + log_entries(u));
            assert(split(t, '\0').last() == q.last());
        }
    }
}

/// The entries that looking up the records of two lists read, list after list.
proof fn lemma_entries_by_record_concat(a: Seq<Seq<char>>, b: Seq<Seq<char>>)
    ensures
        entries_by_record(a + b) == entries_by_record(a) + entries_by_record(b),
    decreases b.len(),
{
    if b.len() == 0 {
        assert(a + b =~= a);
        assert(entries_by_record(a) + entries_by_record(b) =~= entries_by_record(a));
    } else {
        lemma_entries_by_record_concat(a, b.drop_last());
        assert((a + b).drop_last() =~= a + b.drop_last());
        assert((a + b).last() == b.last());
        assert(entries_by_record(a + b) =~= entries_by_record(a) + entries_by_record(b));
    }
}

/// Looking a commit up by its hash reads the entry that the history
/// listing holds for it, whatever the commit's record holds: the first
/// entry that the lookup reads stands in the listing's entries right after
/// those of the commits before it, and commits built from the two with
/// the same file changes agree in every field and total.
pub proof fn lemma_lookup_matches_listing(
    rs: Seq<Seq<char>>,
    i: int,
    listed: CommitInfo,
    looked_up: CommitInfo,
)
    requires
        0 <= i < rs.len(),
        log_entries(raw_listing(seq![rs[i]])).len() > 0,
        listed.entry() == log_entries(raw_listing(rs))[entries_by_record(rs.take(i)).len() as int],
        looked_up.entry() == log_entries(raw_listing(seq![rs[i]]))[0],
        change_views(listed.files_changed@) == change_views(looked_up.files_changed@),
        listed.wf(),
        looked_up.wf(),
    ensures
        entries_by_record(rs.take(i)).len() < log_entries(raw_listing(rs)).len(),
        looked_up.entry() == listed.entry(),
        looked_up.insertions == listed.insertions,
        looked_up.deletions == listed.deletions,
{
    lemma_listing_reads_as_lookups(rs);
    let before = rs.take(i);
    let one = seq![rs[i]];
    let after = rs.skip(i + 1);
    assert(rs =~= before + (one + after));
    lemma_entries_by_record_concat(before, one + after);
    lemma_entries_by_record_concat(one, after);
    assert(one.drop_last() =~= Seq::<Seq<char>>::empty());
    assert(one.last() == rs[i]);
    assert(seq![one.last()] =~= one);
    assert(entries_by_record(Seq::<Seq<char>>::empty()) =~= Seq::<LogEntryModel>::empty());
    assert(entries_by_record(one) =~= log_entries(raw_listing(one)));
    let l = entries_by_record(before);
    let m = log_entries(raw_listing(one));
    assert(entries_by_record(rs) == l + (m + entries_by_record(after)));
    assert((l + (m + entries_by_record(after)))[l.len() as int] == m[0]);
}

} // verus!
