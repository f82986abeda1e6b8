use trail::cli::{Cli, Command, OutputFormat};
use trail::error::TrailError;
use trail::evidence::{detect_sources, CommitEvidence, WitnessRef};
use trail::git::{CommitInfo, FileChange};
use trail::report::{
    render_commit_detail_text, render_log_text, render_sources_text, render_summary_text,
    summarize, truncate, try_summarize,
};

fn commit(short: &str, author: &str, date: &str, subject: &str, files: Vec<FileChange>) -> CommitInfo {
    let insertions = files.iter().map(|f| f.additions).sum();
    let deletions = files.iter().map(|f| f.deletions).sum();
    CommitInfo {
        sha: format!("{short}0000"),
        short_sha: short.to_string(),
        author: author.to_string(),
        date: date.to_string(),
        subject: subject.to_string(),
        body: String::new(),
        files_changed: files,
        insertions,
        deletions,
    }
}

fn file(path: &str, a: usize, d: usize) -> FileChange {
    FileChange { path: path.to_string(), additions: a, deletions: d }
}

fn no_evidence() -> CommitEvidence {
    CommitEvidence { witness_runs: Vec::new(), latch_context: None, probe_snapshot: false }
}

fn witness(id: &str, command: &str, exit_code: i32, tag: Option<&str>) -> WitnessRef {
    WitnessRef {
        id: id.to_string(),
        command: command.to_string(),
        exit_code,
        tag: tag.map(String::from),
    }
}

#[test]
fn truncate_short_and_long() {
    assert_eq!(truncate("abc", 50), "abc");
    let long = "x".repeat(60);
    assert_eq!(truncate(&long, 50), format!("{}...", "x".repeat(50)));
    assert_eq!(truncate(&"y".repeat(50), 50), "y".repeat(50));
    assert_eq!(truncate("h\u{e9}llo", 3), "h\u{e9}...");
}

#[test]
fn log_text_lists_commits_with_witnesses() {
    let c = commit("abc1234", "Ann", "2026-06-22 10:11:12 +0200", "Fix parser", vec![file("a.rs", 3, 1)]);
    let mut ev = no_evidence();
    ev.witness_runs.push(witness("w1", "cargo test", 0, Some("ci")));
    ev.witness_runs.push(witness("w2", &"z".repeat(55), 2, None));
    let text = render_log_text(&vec![c], &vec![ev]);
    let expected = format!(
        "abc1234 Fix parser (Ann)\n  2026-06-22 10:11 | +3 -1 (1 files)\n  \u{2713} witness: `cargo test` [ci]\n  \u{2717} witness: `{}...`\n\n",
        "z".repeat(50)
    );
    assert_eq!(text, expected);
}

#[test]
fn log_text_pairs_as_far_as_both_go() {
    let c1 = commit("a", "A", "2026-06-22 10:11:12 +0200", "one", vec![]);
    let c2 = commit("b", "B", "2026-06-21 10:11:12 +0200", "two", vec![]);
    let text = render_log_text(&vec![c1, c2], &vec![no_evidence()]);
    assert_eq!(text, "a one (A)\n  2026-06-22 10:11 | +0 -0 (0 files)\n\n");
}

#[test]
fn summary_figures_and_text() {
    let commits: Vec<CommitInfo> = (0..7)
        .map(|i| {
            let author = if i % 2 == 0 { "Bob" } else { "Ann" };
            commit(&format!("c{i}"), author, &format!("2026-06-2{i} 0{i}:00:00 +0000"), &format!("s{i}"), vec![file("f", i, 1)])
        })
        .collect();
    let mut ev: Vec<CommitEvidence> = (0..7).map(|_| no_evidence()).collect();
    ev[3].witness_runs.push(witness("w", "c", 0, None));
    let s = summarize(&commits, &ev);
    assert_eq!(s.commits, 7);
    assert_eq!(s.authors, vec!["Ann", "Bob"]);
    assert_eq!(s.insertions, 21);
    assert_eq!(s.deletions, 7);
    assert_eq!(s.files_changed, 7);
    assert_eq!(s.witness_evidence, 1);
    assert_eq!(s.recent, 5);
    assert_eq!(s.newest.as_deref(), Some("2026-06-20 00:00:00 +0000"));
    assert_eq!(s.oldest.as_deref(), Some("2026-06-26 06:00:00 +0000"));
    let text = render_summary_text(&commits, &s);
    let expected = "trail summary: 7 commits by 2 author(s)\n\n  Period: 2026-06-26 06:00 to 2026-06-20 00:00\n  Authors: Ann, Bob\n  Changes: +21 -7 across 7 file edits\n  Evidence: 1 witness recording(s)\n\n  Recent:\n    c0 s0\n    c1 s1\n    c2 s2\n    c3 s3\n    c4 s4\n    ... and 2 more\n";
    assert_eq!(text, expected);
}

#[test]
fn summary_of_nothing() {
    let s = summarize(&Vec::new(), &Vec::new());
    assert_eq!(s.commits, 0);
    assert!(s.authors.is_empty());
    assert!(s.oldest.is_none() && s.newest.is_none());
    let text = render_summary_text(&Vec::new(), &s);
    assert_eq!(text, "trail summary: 0 commits by 0 author(s)\n\n  Authors: \n  Changes: +0 -0 across 0 file edits\n\n  Recent:\n");
}

#[test]
fn commit_detail_text() {
    let mut c = commit("abc1234", "Ann", "2026-06-22 10:11:12 +0200", "Fix parser",
        vec![file("src/a.rs", 12, 3), file("README.md", 12345, 0)]);
    c.body = "  First line\r\nSecond line\n\n".to_string();
    let mut ev = no_evidence();
    ev.witness_runs.push(witness("w1", "cargo test --all", 1, Some("nightly")));
    ev.latch_context = Some("Ledger".to_string());
    let text = render_commit_detail_text(&c, &ev);
    let expected = "trail show: abc1234\n\n  Subject: Fix parser\n  Author: Ann\n  Date: 2026-06-22 10:11:12 +0200\n  Stats: +12357 -3 (2 files)\n\n  Message:\n    First line\n    Second line\n\n  Files:\n    +12   -3    src/a.rs\n    +12345 -0    README.md\n\n  Witness evidence:\n    \u{2717} w1 `cargo test --all` [nightly]\n\n  Latch: Ledger\n";
    assert_eq!(text, expected);
}

#[test]
fn commit_detail_without_extras() {
    let c = commit("a", "A", "d", "s", vec![]);
    let text = render_commit_detail_text(&c, &no_evidence());
    assert_eq!(text, "trail show: a\n\n  Subject: s\n  Author: A\n  Date: d\n  Stats: +0 -0 (0 files)\n");
}

#[test]
fn sources_text() {
    let text = render_sources_text(&detect_sources(&vec!["w.json".to_string()], false, false, true));
    assert_eq!(
        text,
        "trail sources:\n\n  \u{2713} witness \u{2014} .agent-witness/evidence/\n  \u{b7} latch   \u{2014} .latch.db\n  \u{b7} probe   \u{2014} .agent-probe/\n  \u{2713} atlas   \u{2014} .agent-atlas/\n"
    );
}

#[test]
fn cli_format_and_history() {
    let cli = Cli { repo: None, format: OutputFormat::Json, command: Command::Sources };
    assert!(cli.is_json());
    assert!(cli.command.history_args(false, false).is_none());
    let cli = Cli { repo: None, format: OutputFormat::Text, command: Command::Summary { limit: 10 } };
    assert!(!cli.is_json());
    assert_eq!(cli.command.history_args(true, true).unwrap(), log_args_of_summary());
    let log = Command::Log { limit: 5, since: Some("2 days ago".to_string()), until: None };
    let args = log.history_args(false, false).unwrap();
    assert_eq!(args[1], "-5");
    assert_eq!(args[3], "--since=2 days ago");
    let args = log.history_args(true, false).unwrap();
    assert_eq!(args[3], "2 days ago..HEAD");
    assert!(Command::Show { commit: "x".to_string() }.history_args(true, true).is_none());
}

#[test]
fn error_codes() {
    let v = TrailError::Validation("v".to_string());
    assert_eq!((v.exit_code(), v.error_code()), (1, "validation_error"));
    let n = TrailError::NotFound("n".to_string());
    assert_eq!((n.exit_code(), n.error_code()), (3, "not_found"));
    let i = TrailError::Io(std::io::Error::new(std::io::ErrorKind::Other, "x"));
    assert_eq!((i.exit_code(), i.error_code()), (2, "io_error"));
    let j = TrailError::Json(serde_json::from_str::<serde_json::Value>("{").unwrap_err());
    assert_eq!((j.exit_code(), j.error_code()), (1, "json_error"));
}

#[test]
fn truncated_text_is_bounded() {
    for s in ["", "short", "\u{e9}\u{e9}\u{e9}\u{e9}", "0123456789abcdef"] {
        for max in [0usize, 2, 4, 8, 16] {
            if s.len() <= max || s.is_char_boundary(max) {
                let t = truncate(s, max);
                assert!(t.len() <= max + 3, "{:?} {}", s, max);
                if s.len() <= max {
                    assert_eq!(t, s);
                } else {
                    assert_eq!(t, format!("{}...", &s[..max]));
                }
            }
        }
    }
}

#[test]
fn summary_does_not_depend_on_evidence_but_for_witnesses() {
    let commits = vec![
        commit("a", "Zoe", "2026-06-22 10:11:12 +0200", "one", vec![file("x", 1, 2)]),
        commit("b", "Al", "2026-06-21 10:11:12 +0200", "two", vec![]),
        commit("c", "Zoe", "2026-06-20 10:11:12 +0200", "three", vec![file("y", 5, 0)]),
    ];
    let s1 = summarize(&commits, &vec![no_evidence(), no_evidence(), no_evidence()]);
    let mut ev = no_evidence();
    ev.witness_runs.push(witness("w", "c", 0, None));
    let s2 = summarize(&commits, &vec![ev]);
    assert_eq!(s1.authors, s2.authors);
    assert_eq!(s1.authors, vec!["Al", "Zoe"]);
    assert_eq!((s1.insertions, s1.deletions, s1.files_changed), (s2.insertions, s2.deletions, s2.files_changed));
    assert_eq!((s1.witness_evidence, s2.witness_evidence), (0, 1));
    assert_eq!(s1.recent, 3);
}

fn log_args_of_summary() -> Vec<String> {
    trail::git::log_args(10, &None, &None)
}

#[test]
fn summary_figures_ignore_order() {
    let commits = vec![
        commit("a", "Zoe", "2026-06-22 10:11:12 +0200", "one", vec![file("x", 1, 2)]),
        commit("b", "Al", "2026-06-21 10:11:12 +0200", "two", vec![file("y", 4, 0), file("z", 1, 1)]),
        commit("c", "Mo", "2026-06-20 10:11:12 +0200", "three", vec![]),
    ];
    let mut ev = vec![no_evidence(), no_evidence()];
    ev[0].witness_runs.push(witness("w", "c", 0, None));
    let s1 = summarize(&commits, &ev);
    let mut commits2 = commits.clone();
    commits2.reverse();
    let mut ev2 = ev.clone();
    ev2.reverse();
    let s2 = summarize(&commits2, &ev2);
    assert_eq!(s1.authors, s2.authors);
    assert_eq!(
        (s1.commits, s1.files_changed, s1.insertions, s1.deletions, s1.witness_evidence),
        (s2.commits, s2.files_changed, s2.insertions, s2.deletions, s2.witness_evidence)
    );
    assert_ne!(s1.newest, s2.newest);
}

#[test]
fn summary_totals_that_overflow_are_refused() {
    let mut c = commit("a", "A", "2026-06-22 10:11:12 +0200", "s", vec![]);
    c.insertions = usize::MAX;
    let mut d = commit("b", "B", "2026-06-21 10:11:12 +0200", "t", vec![]);
    d.insertions = 1;
    assert!(try_summarize(&vec![c.clone(), d], &Vec::new()).is_none());
    let s = try_summarize(&vec![c], &Vec::new()).unwrap();
    assert_eq!(s.insertions, usize::MAX);
}
