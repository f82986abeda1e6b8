use trail::error::TrailError;
use trail::git::{
    bound_of, changes_from_numstat, commit_from, try_commit_from, failed_log, get_commit, is_empty_history_error, log_args, names_commit_args, numstat_args,
    parse_log_output, parse_numstat, show_args, Bound, CommitInfo, FileChange,
};

fn commits_from_log(log: &str, numstat: &str) -> Vec<CommitInfo> {
    parse_log_output(log)
        .into_iter()
        .map(|e| commit_from(e, parse_numstat(numstat).unwrap()))
        .collect()
}

#[test]
fn detects_empty_history_errors() {
    assert!(is_empty_history_error(
        "fatal: your current branch 'master' does not have any commits yet"
    ));
    assert!(!is_empty_history_error("fatal: bad revision 'HEAD'"));
}

#[test]
fn empty_history_phrases_each_count() {
    assert!(is_empty_history_error("No commits yet on main"));
    assert!(is_empty_history_error("error: your current branch appears to be broken"));
    assert!(is_empty_history_error("x does not have any commits yet"));
    assert!(!is_empty_history_error(""));
    assert!(!is_empty_history_error("no commits yet"));
}

/// A root commit's file statistics: the `git diff-tree` arguments ask for
/// a root commit's files, and their output, written out here, reads as the
/// commit's two files.
#[test]
fn root_commit_stats_ignore_worktree_changes() {
    // `git diff-tree --root` reports the files of a root commit, not of the worktree.
    let args = numstat_args("abc123");
    assert_eq!(args, vec!["diff-tree", "--root", "--no-commit-id", "-r", "--numstat", "abc123"]);
    let log = "abc123\x1fabc\x1fTrail Test\x1f2026-06-22 10:00:00 +0000\x1finitial\x1f\x00\n";
    let numstat = "1\t0\tREADME.md\n1\t0\tsrc/lib.rs\n";
    let commits = commits_from_log(log, numstat);
    assert_eq!(commits.len(), 1);
    assert_eq!(commits[0].files_changed.len(), 2);
    assert!(commits[0].files_changed.iter().any(|f| f.path == "README.md"));
    assert!(commits[0].files_changed.iter().any(|f| f.path == "src/lib.rs"));
}

/// The error that `git log` gives in a repository without commits, written
/// out here, reads as no commits.
#[test]
fn empty_repo_returns_empty_commits() {
    let stderr = "fatal: your current branch 'master' does not have any commits yet\n";
    let commits = failed_log(stderr).unwrap();
    assert!(commits.is_empty());
}

#[test]
fn failed_log_other_errors_are_validation_errors() {
    match failed_log("fatal: not a git repository") {
        Err(TrailError::Validation(m)) => assert_eq!(m, "Failed to read git log"),
        other => panic!("unexpected {:?}", other),
    }
}

/// A lookup by hash: `git log -1` output for a repository with one commit,
/// written out here, reads as that commit.
#[test]
fn get_commit_by_sha() {
    let sha = "0123456789abcdef0123456789abcdef01234567";
    let log = format!(
        "{sha}\x1f0123456\x1fTrail Test\x1f2026-06-22 10:00:00 +0000\x1ffirst commit\x1f\x00\n"
    );
    let commits = commits_from_log(&log, "5\t0\ttest.txt\n");
    let commit = get_commit(commits, sha).unwrap();
    assert_eq!(commit.subject, "first commit");
    assert_eq!(commit.sha, sha);
    assert_eq!(commit.insertions, 5);
}

#[test]
fn get_commit_missing_is_not_found() {
    match get_commit(Vec::new(), "deadbeef") {
        Err(TrailError::NotFound(m)) => assert_eq!(m, "Commit deadbeef not found"),
        other => panic!("unexpected {:?}", other),
    }
}

#[test]
fn parse_numstat_handles_empty() {
    let result = parse_numstat("").unwrap();
    assert!(result.is_empty());
}

#[test]
fn parse_numstat_handles_binary() {
    // Binary files show - instead of numbers
    let result = parse_numstat("-\t-\timage.png").unwrap();
    assert_eq!(result.len(), 1);
    assert_eq!(result[0].additions, 0);
    assert_eq!(result[0].path, "image.png");
}

#[test]
fn parse_numstat_reads_counts_and_skips_short_lines() {
    let result = parse_numstat("12\t3\ta.rs\r\nnot a stat line\n+4\t0\tb c.txt\textra\n\n").unwrap();
    assert_eq!(result.len(), 2);
    assert_eq!((result[0].additions, result[0].deletions), (12, 3));
    assert_eq!(result[0].path, "a.rs");
    assert_eq!((result[1].additions, result[1].deletions), (4, 0));
    assert_eq!(result[1].path, "b c.txt");
}

#[test]
fn parse_numstat_overflowing_count_is_zero() {
    let result = parse_numstat("99999999999999999999999\t7\tbig").unwrap();
    assert_eq!(result[0].additions, 0);
    assert_eq!(result[0].deletions, 7);
}

#[test]
fn parse_log_output_reads_fields_and_body() {
    let log = "\n  aaa\x1fa\x1fAnn\x1f2026-06-20 09:00:00 +0200\x1fFix it\x1fLine one\nLine two\n\x00\n\
               bbb\x1fb\x1fBob\x1f2026-06-21 09:00:00 +0200\x1fNo body\x00\n\
               broken\x1fentry\x00\n   \x00";
    let entries = parse_log_output(log);
    assert_eq!(entries.len(), 2);
    assert_eq!(entries[0].sha, "aaa");
    assert_eq!(entries[0].short_sha, "a");
    assert_eq!(entries[0].author, "Ann");
    assert_eq!(entries[0].date, "2026-06-20 09:00:00 +0200");
    assert_eq!(entries[0].subject, "Fix it");
    assert_eq!(entries[0].body, "Line one\nLine two");
    assert_eq!(entries[1].sha, "bbb");
    assert_eq!(entries[1].body, "");
}

#[test]
fn parse_log_output_keeps_separators_in_body() {
    let entries = parse_log_output("s\x1fh\x1fa\x1fd\x1fsubj\x1fbody\x1fmore\x00");
    assert_eq!(entries.len(), 1);
    assert_eq!(entries[0].body, "body\x1fmore");
}

#[test]
fn commit_totals_are_sums_of_files() {
    let files = vec![
        FileChange { path: "a".to_string(), additions: 3, deletions: 1 },
        FileChange { path: "b".to_string(), additions: 4, deletions: 5 },
    ];
    let entry = parse_log_output("s\x1fh\x1fa\x1fd\x1fsubj\x00").remove(0);
    let c = commit_from(entry, files);
    assert_eq!(c.insertions, 7);
    assert_eq!(c.deletions, 6);
    assert_eq!(c.subject, "subj");
}

#[test]
fn log_args_limit_and_bounds() {
    let args = log_args(5, &None, &None);
    assert_eq!(args, vec!["log", "-5", "--format=%H\x1f%h\x1f%an\x1f%ai\x1f%s\x1f%b%x00"]);
    let since = Some(Bound::Date("2 days ago".to_string()));
    let until = Some(Bound::Date("yesterday".to_string()));
    let args = log_args(20, &since, &until);
    assert_eq!(args[1], "-20");
    assert_eq!(args[3], "--since=2 days ago");
    assert_eq!(args[4], "--until=yesterday");
    assert_eq!(args.len(), 5);
    let args = log_args(0, &None, &Some(Bound::Date("x".to_string())));
    assert_eq!(args.len(), 4);
    assert_eq!(args[3], "--until=x");
}

#[test]
fn log_args_ref_bounds_make_a_range() {
    let v1 = Some(Bound::Ref("v1.0".to_string()));
    let args = log_args(10, &v1, &None);
    assert_eq!(args[3..], ["v1.0..HEAD"]);
    let args = log_args(10, &v1, &Some(Bound::Ref("v2.0".to_string())));
    assert_eq!(args[3..], ["v1.0..v2.0"]);
    let args = log_args(10, &None, &Some(Bound::Ref("main".to_string())));
    assert_eq!(args[3..], ["main"]);
    let args = log_args(10, &v1, &Some(Bound::Date("today".to_string())));
    assert_eq!(args[3..], ["--until=today", "v1.0..HEAD"]);
    let args = log_args(10, &Some(Bound::Date("monday".to_string())), &Some(Bound::Ref("v2".to_string())));
    assert_eq!(args[3..], ["--since=monday", "v2"]);
}

#[test]
fn bounds_follow_what_git_resolves() {
    assert!(matches!(bound_of("v1.0", true), Bound::Ref(r) if r == "v1.0"));
    assert!(matches!(bound_of("2 days ago", false), Bound::Date(d) if d == "2 days ago"));
    assert_eq!(names_commit_args("v1.0"), vec!["rev-parse", "--verify", "--quiet", "v1.0^{commit}"]);
}

#[test]
fn show_args_name_the_commit() {
    assert_eq!(
        show_args("abc"),
        vec!["log", "-1", "--format=%H\x1f%h\x1f%an\x1f%ai\x1f%s\x1f%b%x00", "abc"]
    );
}

#[test]
fn log_listing_reads_back_its_entries() {
    let entries = [
        ["0a1b", "0a1", "Ann Lee", "2026-06-20 09:00:00 +0200", "Add parser", "Body line\n\nMore \x1f text"],
        ["ffee", "ffe", "Bob", "2026-06-21 10:00:00 +0000", "Tweak", ""],
    ];
    let mut listing = String::new();
    for e in entries.iter() {
        listing.push_str(&e.join("\x1f"));
        listing.push_str("\x00\n");
    }
    let parsed = parse_log_output(&listing);
    assert_eq!(parsed.len(), entries.len());
    for (p, e) in parsed.iter().zip(entries.iter()) {
        assert_eq!([&p.sha[..], &p.short_sha, &p.author, &p.date, &p.subject, &p.body], e.map(|s| s));
    }
}

#[test]
fn numstat_listing_reads_back_its_changes() {
    let changes = [(0usize, 0usize, "a.txt"), (12, 3, "dir/b c.rs"), (usize::MAX, 7, "")];
    let mut listing = String::new();
    for (a, d, p) in changes.iter() {
        listing.push_str(&format!("{a}\t{d}\t{p}\n"));
    }
    let parsed = parse_numstat(&listing).unwrap();
    assert_eq!(parsed.len(), changes.len());
    for (f, (a, d, p)) in parsed.iter().zip(changes.iter()) {
        assert_eq!((f.additions, f.deletions, f.path.as_str()), (*a, *d, *p));
    }
}

#[test]
fn lookup_reads_the_listed_commit() {
    let records = [
        "aaa1\x1faa\x1fAnn\x1f2026-06-20 09:00:00 +0200\x1fFirst\x1fBody one",
        "bbb2\x1fbb\x1fBob\x1f2026-06-21 09:00:00 +0200\x1fSecond\x1f",
    ];
    let listing: String = records.iter().map(|r| format!("{r}\x00\n")).collect();
    let numstat = "3\t1\tsrc/a.rs\n";
    let listed = commits_from_log(&listing, numstat);
    for (i, r) in records.iter().enumerate() {
        let looked_up = get_commit(commits_from_log(&format!("{r}\x00\n"), numstat), &listed[i].sha).unwrap();
        assert_eq!(
            (&looked_up.sha, &looked_up.short_sha, &looked_up.author, &looked_up.date, &looked_up.subject, &looked_up.body),
            (&listed[i].sha, &listed[i].short_sha, &listed[i].author, &listed[i].date, &listed[i].subject, &listed[i].body)
        );
        assert_eq!((looked_up.insertions, looked_up.deletions), (listed[i].insertions, listed[i].deletions));
        assert_eq!(looked_up.files_changed.len(), listed[i].files_changed.len());
    }
}

#[test]
fn listing_reads_as_lookups_whatever_the_records_hold() {
    let records = [
        "aaa1\x1faa\x1fAnn\x1fd1\x1fFirst\x1fbody with\x00a NUL inside",
        "  \n",
        "bbb2\x1fbb\x1fBob\x1fd2\x1fSecond\x1ftrailing space   ",
        "short\x1frecord",
    ];
    let listing: String = records.iter().map(|r| format!("{r}\x00\n")).collect();
    let from_listing = parse_log_output(&listing);
    let from_lookups: Vec<_> = records
        .iter()
        .flat_map(|r| parse_log_output(&format!("{r}\x00\n")))
        .collect();
    assert_eq!(from_listing.len(), from_lookups.len());
    for (a, b) in from_listing.iter().zip(from_lookups.iter()) {
        assert_eq!(
            (&a.sha, &a.short_sha, &a.author, &a.date, &a.subject, &a.body),
            (&b.sha, &b.short_sha, &b.author, &b.date, &b.subject, &b.body)
        );
    }
    assert_eq!(from_listing.len(), 2);
    assert_eq!(from_listing[0].body, "body with");
}

#[test]
fn failed_diff_tree_means_no_files() {
    assert!(changes_from_numstat(false, "1\t2\tx").unwrap().is_empty());
    assert_eq!(changes_from_numstat(true, "1\t2\tx").unwrap().len(), 1);
}

#[test]
fn commit_totals_that_overflow_are_refused() {
    let big = vec![
        FileChange { path: "a".to_string(), additions: usize::MAX, deletions: 0 },
        FileChange { path: "b".to_string(), additions: 1, deletions: 0 },
    ];
    let entry = parse_log_output("s\x1fh\x1fa\x1fd\x1fsubj\x00").remove(0);
    assert!(try_commit_from(entry, big).is_none());
    let entry = parse_log_output("s\x1fh\x1fa\x1fd\x1fsubj\x00").remove(0);
    let ok = vec![FileChange { path: "a".to_string(), additions: 2, deletions: 3 }];
    let c = try_commit_from(entry, ok).unwrap();
    assert_eq!((c.insertions, c.deletions), (2, 3));
}
