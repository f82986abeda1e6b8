use trail::evidence::{
    detect_sources, find_latch_context, find_witness_evidence, gather_evidence, is_json_file_name,
    json_files, Source,
};
use trail::git::{commit_from, parse_log_output};

fn files(v: &[&str]) -> Vec<String> {
    v.iter().map(|s| s.to_string()).collect()
}

#[test]
fn detect_sources_reports_each_flag() {
    let s = detect_sources(&files(&["run.json"]), false, true, false);
    assert!(s.witness && !s.latch && s.probe && !s.atlas);
}

#[test]
fn witness_needs_a_json_file() {
    let s = detect_sources(&Vec::new(), true, false, false);
    assert!(!s.witness && s.latch);
    let s = detect_sources(&files(&["notes.txt", ".json", "json", "a.json.bak"]), false, false, false);
    assert!(!s.witness);
    let s = detect_sources(&files(&["notes.txt", "x.json"]), false, false, false);
    assert!(s.witness);
}

#[test]
fn json_names_are_selected_like_path_extension() {
    for name in ["a.json", ".json", "json", "a.b.json", "..json", "a.JSON", "a.json.bak", "a.", "", "x.jsonx"] {
        let by_path = std::path::Path::new(name).extension().map_or(false, |e| e == "json");
        assert_eq!(is_json_file_name(name), by_path, "name {:?}", name);
    }
    assert_eq!(json_files(&files(&["b.json", "c.txt", "a.json", ".json"])), vec!["b.json", "a.json"]);
}

#[test]
fn source_locations() {
    assert_eq!(Source::Witness.location(), ".agent-witness/evidence");
    assert_eq!(Source::Latch.location(), ".latch.db");
    assert_eq!(Source::Probe.location(), ".agent-probe");
    assert_eq!(Source::Atlas.location(), ".agent-atlas");
}

#[test]
fn latch_context_only_with_ledger() {
    assert_eq!(
        find_latch_context(true).as_deref(),
        Some("Latch coordination ledger is active in this project.")
    );
    assert_eq!(find_latch_context(false), None);
}

#[test]
fn witness_runs_correlate_by_day() {
    let contents = files(&[
        r#"{"id":"w1","command":"cargo test","exit_code":0,"tag":"ci","timestamp":"2026-06-22T10:00:00Z"}"#,
        r#"{"id":"w2","command":"cargo build","exit_code":1,"timestamp":"2026-06-21T23:59:59Z"}"#,
        r#"not json at all"#,
        r#"{"id":"w3","exit_code":"x","timestamp":"2026-06-22"}"#,
        r#"{"id":"w4","command":"make","exit_code":2,"timestamp":"2026-06"}"#,
    ]);
    let refs = find_witness_evidence("2026-06-22 12:00:00 +0200", &contents).unwrap();
    assert_eq!(refs.len(), 2);
    assert_eq!(refs[0].id, "w1");
    assert_eq!(refs[0].command, "cargo test");
    assert_eq!(refs[0].exit_code, 0);
    assert_eq!(refs[0].tag.as_deref(), Some("ci"));
    assert_eq!(refs[1].id, "w3");
    assert_eq!(refs[1].command, "");
    assert_eq!(refs[1].exit_code, -1);
    assert_eq!(refs[1].tag, None);
}

#[test]
fn witness_exit_code_is_cut_to_32_bits() {
    let contents = files(&[r#"{"exit_code":4294967297,"timestamp":"2026-06-22x"}"#]);
    let refs = find_witness_evidence("2026-06-22", &contents).unwrap();
    assert_eq!(refs.len(), 1);
    assert_eq!(refs[0].exit_code, 1);
    assert_eq!(refs[0].id, "");
}

#[test]
fn witness_timestamp_cut_inside_a_character_is_refused() {
    // "2026-06-2" is nine bytes; the next character takes two.
    let contents = files(&[r#"{"timestamp":"2026-06-2\u00e9"}"#]);
    assert!(find_witness_evidence("2026-06-22", &contents).is_none());
}

#[test]
fn short_commit_date_is_refused_only_with_records() {
    assert!(find_witness_evidence("2026", &files(&["not json"])).unwrap().is_empty());
    assert!(find_witness_evidence("2026", &files(&["{}"])).is_none());
}

#[test]
fn gather_evidence_combines_sources() {
    let entry = parse_log_output("s\x1fh\x1fa\x1f2026-06-22 10:00:00 +0000\x1fsubj\x00").remove(0);
    let commit = commit_from(entry, Vec::new());
    let contents = files(&[r#"{"id":"w","command":"c","exit_code":0,"timestamp":"2026-06-22"}"#]);
    let ev = gather_evidence(&commit, &contents, true, false).unwrap();
    assert_eq!(ev.witness_runs.len(), 1);
    assert!(ev.latch_context.is_some());
    assert!(!ev.probe_snapshot);
    let ev = gather_evidence(&commit, &Vec::new(), false, true).unwrap();
    assert!(ev.witness_runs.is_empty());
    assert!(ev.latch_context.is_none());
    assert!(ev.probe_snapshot);
}
