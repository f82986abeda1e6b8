//! The text of the reports: changelog, summary, commit detail and the list
//! of evidence sources.

use vstd::prelude::*;
use vstd::utf8::{decode_utf8, encode_utf8, is_char_boundary};
use crate::evidence::{bytes_of, CommitEvidence, EvidenceSources, WitnessRef, WitnessRefModel, witness_views};
use crate::git::{change_views, CommitInfo, FileChange, FileChangeModel};
use crate::numbers::{decimal, decimal_string, push_decimal};
use crate::order::{lemma_strictly_sorted_unique, sorted_distinct, strictly_sorted};
use crate::text::{
    lemma_permutation_contains, lemma_total_permutation, opt_view, total, concat, copy_string, join, lemma_concat_step, lemma_concat_push, lines, lines_chars, push_char, push_joined,
    string_of, string_views, sub_chars, to_chars, trim, trim_bounds, views,
};

verus! {

// ---------------------------------------------------------------------
// Pieces of text
// ---------------------------------------------------------------------

/// The first `n` bytes of `s`, read back as text.
pub open spec fn byte_prefix(s: Seq<char>, n: int) -> Seq<char> {
    decode_utf8(bytes_of(s).take(n))
}

/// `s` can be cut after its first `n` bytes.
pub open spec fn cuttable(s: Seq<char>, n: int) -> bool {
    is_char_boundary(bytes_of(s), n)
}

/// `s` shortened to `max` bytes and marked with `...` where it is longer.
pub open spec fn truncated(s: Seq<char>, max: int) -> Seq<char> {
    if bytes_of(s).len() <= max {
        s
    } else {
        byte_prefix(s, max) + "..."@
    }
}

/// Appends the first `n` bytes of `s` to `out`.
pub fn push_byte_prefix(out: &mut String, s: &str, n: usize)
    requires
        cuttable(s@, n as int),
    ensures
        final(out)@ == old(out)@ + byte_prefix(s@, n as int),
{
    proof {
        vstd::utf8::encode_utf8_valid_utf8(s@);
        if n > 0 {
            assert(bytes_of(s@).len() >= n);
        }
    }
    let (head, _) = s.split_at(n);
    proof {
        vstd::utf8::encode_utf8_decode_utf8(head@);
        assert(bytes_of(s@).take(n as int) =~= bytes_of(s@).subrange(0, n as int));
    }
    out.append(head);
}

/// `s` shortened to `max` bytes, with `...` added where it was longer.
pub fn truncate(s: &str, max: usize) -> (r: String)
    requires
        bytes_of(s@).len() <= max || cuttable(s@, max as int),
    ensures
        r@ == truncated(s@, max as int),
{
    let mut r = String::new();
    if s.as_bytes().len() <= max {
        r.append(s);
    } else {
        push_byte_prefix(&mut r, s, max);
        r.append("...");
    }
    assert(r@ =~= truncated(s@, max as int));
    r
}

/// `s` padded with spaces on the right to `width` characters (`{:<width}`).
pub open spec fn pad_right(s: Seq<char>, width: nat) -> Seq<char> {
    if s.len() < width {
        s + Seq::new((width - s.len()) as nat, |i: int| ' ')
    } else {
        s
    }
}

/// Appends `n` in decimal, padded with spaces on the right to `width`
/// characters.
pub fn push_padded_decimal(out: &mut String, n: usize, width: usize)
    ensures
        final(out)@ == old(out)@ + pad_right(decimal(n as nat), width as nat),
{
    let ghost start = out@;
    let d = decimal_string(n);
    let len = d.as_str().unicode_len();
    out.append(d.as_str());
    let mut written = len;
    while written < width
        invariant
            len == d@.len(),
            len <= written,
            written <= width || written == len,
            out@ =~= start + d@ + Seq::new((written - len) as nat, |i: int| ' '),
        decreases width - written,
    {
        push_char(out, ' ');
        written = written + 1;
        assert(out@ =~= start + d@ + Seq::new((written - len) as nat, |i: int| ' '));
    }
    assert(out@ =~= start + pad_right(d@, width as nat));
}

// ---------------------------------------------------------------------
// Changelog
// ---------------------------------------------------------------------

/// The mark of a witness recording: a tick for exit code 0, a cross
/// otherwise.
pub open spec fn icon(exit_code: i32) -> Seq<char> {
    if exit_code == 0 {
        "\u{2713}"@
    } else {
        "\u{2717}"@
    }
}

/// ` [tag]` where a tag is given.
pub open spec fn tag_suffix(tag: Option<Seq<char>>) -> Seq<char> {
    match tag {
        Some(t) => " ["@ + t + "]"@,
        None => Seq::empty(),
    }
}

/// `+insertions -deletions (n files)`.
pub open spec fn stats_text(c: CommitInfo) -> Seq<char> {
    "+"@ + decimal(c.insertions as nat) + " -"@ + decimal(c.deletions as nat) + " ("@ + decimal(
        c.files_changed@.len(),
    ) + " files)"@
}

/// The changelog line of a witness recording.
pub open spec fn log_witness_line(w: WitnessRefModel) -> Seq<char> {
    "  "@ + icon(w.exit_code) + " witness: `"@ + truncated(w.command, 50) + "`"@ + tag_suffix(w.tag)
        + "\n"@
}

/// The changelog lines of the witness recordings of a commit.
pub open spec fn log_witness_lines(ws: Seq<WitnessRefModel>) -> Seq<char> {
    concat(ws.map_values(|w: WitnessRefModel| log_witness_line(w)))
}

/// The changelog block of one commit: its title line, its date to the
/// minute with its statistics, its witness recordings, a blank line.
pub open spec fn log_block(c: CommitInfo, e: CommitEvidence) -> Seq<char> {
    log_head(c) + log_witness_lines(witness_views(e.witness_runs@)) + "\n"@
}

/// The first two lines of a changelog block: short hash, subject and
/// author; date to the minute and statistics.
pub open spec fn log_head(c: CommitInfo) -> Seq<char> {
    c.short_sha@ + " "@ + c.subject@ + " ("@ + c.author@ + ")\n"@ + "  "@ + byte_prefix(c.date@, 16)
        + " | "@ + stats_text(c) + "\n"@
}

/// The changelog of commits paired with their evidence (as far as both go).
pub open spec fn log_text(cs: Seq<CommitInfo>, es: Seq<CommitEvidence>) -> Seq<char> {
    let n = if cs.len() <= es.len() { cs.len() } else { es.len() };
    concat(Seq::new(n, |i: int| log_block(cs[i], es[i])))
}

/// Each witness command can be cut at 50 bytes where it is longer.
pub open spec fn commands_cuttable(ws: Seq<WitnessRef>) -> bool {
    forall|j: int|
        0 <= j < ws.len() ==> bytes_of((#[trigger] ws[j]).command@).len() <= 50 || cuttable(
            ws[j].command@,
            50,
        )
}

/// The changelog can be written: each listed commit's date can be cut at
/// 16 bytes, and each witness command at 50 bytes where it is longer.
pub open spec fn log_writable(cs: Seq<CommitInfo>, es: Seq<CommitEvidence>) -> bool {
    forall|i: int|
        0 <= i < cs.len() && i < es.len() ==> cuttable((#[trigger] cs[i]).date@, 16)
            && commands_cuttable(es[i].witness_runs@)
}

fn push_stats(out: &mut String, c: &CommitInfo)
    ensures
        final(out)@ == old(out)@ + stats_text(*c),
{
    let ghost start = out@;
    out.append("+");
    push_decimal(out, c.insertions);
    out.append(" -");
    push_decimal(out, c.deletions);
    out.append(" (");
    push_decimal(out, c.files_changed.len());
    out.append(" files)");
    assert(out@ =~= start + stats_text(*c));
}

fn push_tag_suffix(out: &mut String, tag: &Option<String>)
    ensures
        final(out)@ == old(out)@ + tag_suffix(opt_view(*tag)),
{
    let ghost start = out@;
    match tag {
        Some(t) => {
            out.append(" [");
            out.append(t.as_str());
            out.append("]");
        },
        None => {},
    }
    assert(out@ =~= start + tag_suffix(opt_view(*tag)));
}

fn push_icon(out: &mut String, exit_code: i32)
    ensures
        final(out)@ == old(out)@ + icon(exit_code),
{
    if exit_code == 0 {
        out.append("\u{2713}");
    } else {
        out.append("\u{2717}");
    }
}

fn push_log_witness_line(out: &mut String, w: &WitnessRef)
    requires
        bytes_of(w.command@).len() <= 50 || cuttable(w.command@, 50),
    ensures
        final(out)@ == old(out)@ + log_witness_line(w@),
{
    let ghost before = out@;
    out.append("  ");
    push_icon(out, w.exit_code);
    out.append(" witness: `");
    let t = truncate(w.command.as_str(), 50);
    out.append(t.as_str());
    out.append("`");
    push_tag_suffix(out, &w.tag);
    out.append("\n");
    assert(out@ =~= before + log_witness_line(w@));
}

fn push_log_witness_lines(out: &mut String, ws: &Vec<WitnessRef>)
    requires
        commands_cuttable(ws@),
    ensures
        final(out)@ == old(out)@ + log_witness_lines(witness_views(ws@)),
{
    let ghost start = out@;
    let ghost lines = witness_views(ws@).map_values(|w: WitnessRefModel| log_witness_line(w));
    let mut k: usize = 0;
    assert(lines.take(0) =~= Seq::<Seq<char>>::empty());
    assert(out@ =~= start + concat(lines.take(0)));
    while k < ws.len()
        invariant
            k <= ws.len(),
            commands_cuttable(ws@),
            lines == witness_views(ws@).map_values(|w: WitnessRefModel| log_witness_line(w)),
            out@ == start + concat(lines.take(k as int)),
        decreases ws.len() - k,
    {
        proof {
            lemma_concat_step(lines, k as int);
        }
        assert(bytes_of(ws@[k as int].command@).len() <= 50 || cuttable(ws@[k as int].command@, 50));
        push_log_witness_line(out, &ws[k]);
        assert(lines[k as int] == log_witness_line(ws@[k as int]@));
        k = k + 1;
    }
    assert(lines.take(ws.len() as int) =~= lines);
}

fn log_head_string(c: &CommitInfo) -> (r: String)
    requires
        cuttable(c.date@, 16),
    ensures
        r@ == log_head(*c),
{
    let mut out = String::new();
    out.append(c.short_sha.as_str());
    out.append(" ");
    out.append(c.subject.as_str());
    out.append(" (");
    out.append(c.author.as_str());
    out.append(")\n");
    out.append("  ");
    push_byte_prefix(&mut out, c.date.as_str(), 16);
    out.append(" | ");
    let ghost mid = out@;
    push_stats(&mut out, c);
    out.append("\n");
    assert(mid =~= c.short_sha@ + " "@ + c.subject@ + " ("@ + c.author@ + ")\n"@ + "  "@ + byte_prefix(c.date@, 16) + " | "@);
    assert(out@ =~= log_head(*c));
    out
}

fn push_log_block(out: &mut String, c: &CommitInfo, e: &CommitEvidence)
    requires
        cuttable(c.date@, 16),
        commands_cuttable(e.witness_runs@),
    ensures
        final(out)@ == old(out)@ + log_block(*c, *e),
{
    let ghost before = out@;
    let head = log_head_string(c);
    out.append(head.as_str());
    push_log_witness_lines(out, &e.witness_runs);
    out.append("\n");
    assert(out@ =~= before + log_block(*c, *e));
}

/// The text of the changelog of `commits`, each with its evidence.
pub fn render_log_text(commits: &Vec<CommitInfo>, evidence: &Vec<CommitEvidence>) -> (text: String)
    requires
        log_writable(commits@, evidence@),
    ensures
        text@ == log_text(commits@, evidence@),
{
    let n = if commits.len() <= evidence.len() {
        commits.len()
    } else {
        evidence.len()
    };
    let ghost blocks = Seq::new(n as nat, |i: int| log_block(commits@[i], evidence@[i]));
    let mut out = String::new();
    let mut k: usize = 0;
    assert(blocks.take(0) =~= Seq::<Seq<char>>::empty());
    while k < n
        invariant
            k <= n,
            n <= commits.len(),
            n <= evidence.len(),
            log_writable(commits@, evidence@),
            blocks == Seq::new(n as nat, |i: int| log_block(commits@[i], evidence@[i])),
            out@ == concat(blocks.take(k as int)),
        decreases n - k,
    {
        proof {
            lemma_concat_step(blocks, k as int);
        }
        assert(cuttable(commits@[k as int].date@, 16) && commands_cuttable(evidence@[k as int].witness_runs@));
        push_log_block(&mut out, &commits[k], &evidence[k]);
        k = k + 1;
    }
    assert(blocks.take(n as int) =~= blocks);
    out
}

// ---------------------------------------------------------------------
// Summary
// ---------------------------------------------------------------------

/// The figures of a summary of commits.
#[derive(Debug)]
pub struct Summary {
    /// How many commits there are.
    pub commits: usize,
    /// Their authors, sorted, each once.
    pub authors: Vec<String>,
    /// How many file edits they make together.
    pub files_changed: usize,
    /// Lines added, over all of them.
    pub insertions: usize,
    /// Lines deleted, over all of them.
    pub deletions: usize,
    /// How many witness recordings the evidence holds.
    pub witness_evidence: usize,
    /// The date of the oldest (last listed) commit.
    pub oldest: Option<String>,
    /// The date of the newest (first listed) commit.
    pub newest: Option<String>,
    /// How many commits, from the newest, the summary lists.
    pub recent: usize,
}

/// How many commits a summary lists.
pub open spec fn recent_count(n: nat) -> nat {
    if n <= 5 { n } else { 5 }
}

/// File edits over all commits.
pub open spec fn sum_files(cs: Seq<CommitInfo>) -> nat {
    total(cs, |c: CommitInfo| c.files_changed@.len())
}

/// Insertions over all commits.
pub open spec fn sum_insertions(cs: Seq<CommitInfo>) -> nat {
    total(cs, |c: CommitInfo| c.insertions as nat)
}

/// Deletions over all commits.
pub open spec fn sum_deletions(cs: Seq<CommitInfo>) -> nat {
    total(cs, |c: CommitInfo| c.deletions as nat)
}

/// Witness recordings over all evidence.
pub open spec fn sum_witnesses(es: Seq<CommitEvidence>) -> nat {
    total(es, |e: CommitEvidence| e.witness_runs@.len())
}

/// The authors of commits, in order, repeats included.
pub open spec fn author_views(cs: Seq<CommitInfo>) -> Seq<Seq<char>> {
    cs.map_values(|c: CommitInfo| c.author@)
}

/// The totals of a summary fit in a `usize`.
pub open spec fn summary_fits(cs: Seq<CommitInfo>, es: Seq<CommitEvidence>) -> bool {
    &&& sum_files(cs) <= usize::MAX
    &&& sum_insertions(cs) <= usize::MAX
    &&& sum_deletions(cs) <= usize::MAX
    &&& sum_witnesses(es) <= usize::MAX
}

/// `s` is the summary of `cs` with evidence `es`.
pub open spec fn is_summary_of(s: Summary, cs: Seq<CommitInfo>, es: Seq<CommitEvidence>) -> bool {
    &&& s.commits == cs.len()
    &&& strictly_sorted(string_views(s.authors@))
    &&& forall|x: Seq<char>| string_views(s.authors@).contains(x) <==> author_views(cs).contains(x)
    &&& s.files_changed == sum_files(cs)
    &&& s.insertions == sum_insertions(cs)
    &&& s.deletions == sum_deletions(cs)
    &&& s.witness_evidence == sum_witnesses(es)
    &&& opt_view(s.oldest) == (if cs.len() > 0 { Some(cs.last().date@) } else { None })
    &&& opt_view(s.newest) == (if cs.len() > 0 { Some(cs[0].date@) } else { None })
    &&& s.recent == recent_count(cs.len())
}

proof fn lemma_commit_sums_prefix(cs: Seq<CommitInfo>, k: int)
    requires
        0 <= k <= cs.len(),
    ensures
        sum_files(cs.take(k)) <= sum_files(cs),
        sum_insertions(cs.take(k)) <= sum_insertions(cs),
        sum_deletions(cs.take(k)) <= sum_deletions(cs),
    decreases cs.len(),
{
    if k < cs.len() {
        assert(cs.drop_last().take(k) =~= cs.take(k));
        lemma_commit_sums_prefix(cs.drop_last(), k);
    } else {
        assert(cs.take(k) =~= cs);
    }
}

proof fn lemma_witness_sum_prefix(es: Seq<CommitEvidence>, k: int)
    requires
        0 <= k <= es.len(),
    ensures
        sum_witnesses(es.take(k)) <= sum_witnesses(es),
    decreases es.len(),
{
    if k < es.len() {
        assert(es.drop_last().take(k) =~= es.take(k));
        lemma_witness_sum_prefix(es.drop_last(), k);
    } else {
        assert(es.take(k) =~= es);
    }
}

fn witness_total(evidence: &Vec<CommitEvidence>) -> (n: usize)
    requires
        sum_witnesses(evidence@) <= usize::MAX,
    ensures
        n == sum_witnesses(evidence@),
{
    let mut total: usize = 0;
    let mut k: usize = 0;
    assert(evidence@.take(0) =~= Seq::<CommitEvidence>::empty());
    while k < evidence.len()
        invariant
            k <= evidence.len(),
            sum_witnesses(evidence@) <= usize::MAX,
            total == sum_witnesses(evidence@.take(k as int)),
        decreases evidence.len() - k,
    {
        assert(evidence@.take(k + 1).drop_last() =~= evidence@.take(k as int));
        proof {
            lemma_witness_sum_prefix(evidence@, k + 1);
        }
        total = total + evidence[k].witness_runs.len();
        k = k + 1;
    }
    assert(evidence@.take(evidence.len() as int) =~= evidence@);
    total
}

fn summary_fits_exec(commits: &Vec<CommitInfo>, evidence: &Vec<CommitEvidence>) -> (b: bool)
    ensures
        b == summary_fits(commits@, evidence@),
{
    let mut files: usize = 0;
    let mut ins: usize = 0;
    let mut dels: usize = 0;
    let mut files_ok = true;
    let mut ins_ok = true;
    let mut dels_ok = true;
    let mut k: usize = 0;
    assert(commits@.take(0) =~= Seq::<CommitInfo>::empty());
    while k < commits.len()
        invariant
            k <= commits.len(),
            files_ok ==> files == sum_files(commits@.take(k as int)),
            !files_ok ==> sum_files(commits@.take(k as int)) > usize::MAX,
            ins_ok ==> ins == sum_insertions(commits@.take(k as int)),
            !ins_ok ==> sum_insertions(commits@.take(k as int)) > usize::MAX,
            dels_ok ==> dels == sum_deletions(commits@.take(k as int)),
            !dels_ok ==> sum_deletions(commits@.take(k as int)) > usize::MAX,
        decreases commits.len() - k,
    {
        assert(commits@.take(k + 1).drop_last() =~= commits@.take(k as int));
        assert(commits@.take(k + 1).last() == commits@[k as int]);
        let c = &commits[k];
        if files_ok {
            match files.checked_add(c.files_changed.len()) {
                Some(x) => {
                    files = x;
                },
                None => {
                    files_ok = false;
                },
            }
        }
        if ins_ok {
            match ins.checked_add(c.insertions) {
                Some(x) => {
                    ins = x;
                },
                None => {
                    ins_ok = false;
                },
            }
        }
        if dels_ok {
            match dels.checked_add(c.deletions) {
                Some(x) => {
                    dels = x;
                },
                None => {
                    dels_ok = false;
                },
            }
        }
        k = k + 1;
    }
    assert(commits@.take(commits.len() as int) =~= commits@);
    let mut wit: usize = 0;
    let mut wit_ok = true;
    let mut j: usize = 0;
    assert(evidence@.take(0) =~= Seq::<CommitEvidence>::empty());
    while j < evidence.len()
        invariant
            j <= evidence.len(),
            wit_ok ==> wit == sum_witnesses(evidence@.take(j as int)),
            !wit_ok ==> sum_witnesses(evidence@.take(j as int)) > usize::MAX,
        decreases evidence.len() - j,
    {
        assert(evidence@.take(j + 1).drop_last() =~= evidence@.take(j as int));
        assert(evidence@.take(j + 1).last() == evidence@[j as int]);
        if wit_ok {
            match wit.checked_add(evidence[j].witness_runs.len()) {
                Some(x) => {
                    wit = x;
                },
                None => {
                    wit_ok = false;
                },
            }
        }
        j = j + 1;
    }
    assert(evidence@.take(evidence.len() as int) =~= evidence@);
    files_ok && ins_ok && dels_ok && wit_ok
}

/// The summary of `commits` with their evidence, where its totals fit in
/// a `usize`; `None` where they do not.
pub fn try_summarize(commits: &Vec<CommitInfo>, evidence: &Vec<CommitEvidence>) -> (r: Option<Summary>)
    ensures
        r is Some <==> summary_fits(commits@, evidence@),
        r matches Some(s) ==> is_summary_of(s, commits@, evidence@),
{
    if summary_fits_exec(commits, evidence) {
        Some(summarize(commits, evidence))
    } else {
        None
    }
}

/// The summary of `commits` (newest first) with their evidence.
pub fn summarize(commits: &Vec<CommitInfo>, evidence: &Vec<CommitEvidence>) -> (s: Summary)
    requires
        summary_fits(commits@, evidence@),
    ensures
        is_summary_of(s, commits@, evidence@),
{
    let mut files: usize = 0;
    let mut insertions: usize = 0;
    let mut deletions: usize = 0;
    let mut names: Vec<String> = Vec::new();
    let mut k: usize = 0;
    assert(commits@.take(0) =~= Seq::<CommitInfo>::empty());
    while k < commits.len()
        invariant
            k <= commits.len(),
            summary_fits(commits@, evidence@),
            files == sum_files(commits@.take(k as int)),
            insertions == sum_insertions(commits@.take(k as int)),
            deletions == sum_deletions(commits@.take(k as int)),
            string_views(names@) == author_views(commits@.take(k as int)),
        decreases commits.len() - k,
    {
        let c = &commits[k];
        assert(commits@.take(k + 1).drop_last() =~= commits@.take(k as int));
        assert(commits@.take(k + 1).last() == commits@[k as int]);
        proof {
            lemma_commit_sums_prefix(commits@, k + 1);
        }
        files = files + c.files_changed.len();
        insertions = insertions + c.insertions;
        deletions = deletions + c.deletions;
        names.push(copy_string(&c.author));
        assert(author_views(commits@.take(k + 1)) =~= author_views(commits@.take(k as int)).push(c.author@));
        assert(string_views(names@) =~= author_views(commits@.take(k + 1)));
        k = k + 1;
    }
    assert(commits@.take(commits.len() as int) =~= commits@);
    let authors = sorted_distinct(&names);
    let n = commits.len();
    let oldest = if n > 0 { Some(copy_string(&commits[n - 1].date)) } else { None };
    let newest = if n > 0 { Some(copy_string(&commits[0].date)) } else { None };
    Summary {
        commits: n,
        authors,
        files_changed: files,
        insertions,
        deletions,
        witness_evidence: witness_total(evidence),
        oldest,
        newest,
        recent: if n <= 5 { n } else { 5 },
    }
}

/// `  Period: oldest to newest` (dates to the minute), where there are commits.
pub open spec fn period_line(cs: Seq<CommitInfo>) -> Seq<char> {
    if cs.len() > 0 {
        "  Period: "@ + byte_prefix(cs.last().date@, 16) + " to "@ + byte_prefix(cs[0].date@, 16) + "\n"@
    } else {
        Seq::empty()
    }
}

/// The count of witness recordings, where there are any.
pub open spec fn evidence_line(w: nat) -> Seq<char> {
    if w > 0 {
        "  Evidence: "@ + decimal(w) + " witness recording(s)\n"@
    } else {
        Seq::empty()
    }
}

/// The line of a recent commit: short hash and subject.
pub open spec fn recent_line(c: CommitInfo) -> Seq<char> {
    "    "@ + c.short_sha@ + " "@ + c.subject@ + "\n"@
}

/// The lines of the newest five commits.
pub open spec fn recent_lines(cs: Seq<CommitInfo>) -> Seq<char> {
    concat(Seq::new(recent_count(cs.len()), |i: int| recent_line(cs[i])))
}

/// How many commits the summary leaves out, where it leaves some out.
pub open spec fn more_line(n: nat) -> Seq<char> {
    if n > 5 {
        "    ... and "@ + decimal((n - 5) as nat) + " more\n"@
    } else {
        Seq::empty()
    }
}

/// The title of a summary and the blank line after it.
pub open spec fn summary_title(s: Summary) -> Seq<char> {
    "trail summary: "@ + decimal(s.commits as nat) + " commits by "@ + decimal(s.authors@.len())
        + " author(s)\n"@ + "\n"@
}

/// The authors and changes lines of a summary.
pub open spec fn summary_figures(s: Summary) -> Seq<char> {
    "  Authors: "@ + join(string_views(s.authors@), ", "@) + "\n"@ + "  Changes: +"@ + decimal(
        s.insertions as nat,
    ) + " -"@ + decimal(s.deletions as nat) + " across "@ + decimal(s.files_changed as nat)
        + " file edits\n"@
}

/// The text of summary `s` of commits `cs`.
pub open spec fn summary_text(cs: Seq<CommitInfo>, s: Summary) -> Seq<char> {
    summary_title(s) + period_line(cs) + summary_figures(s) + evidence_line(s.witness_evidence as nat)
        + "\n"@ + "  Recent:\n"@ + recent_lines(cs) + more_line(cs.len())
}

/// The summary's period can be written: where there are commits, the
/// dates of the newest and the oldest can be cut at 16 bytes.
pub open spec fn period_writable(cs: Seq<CommitInfo>) -> bool {
    cs.len() > 0 ==> cuttable(cs[0].date@, 16) && cuttable(cs.last().date@, 16)
}

fn summary_title_string(s: &Summary) -> (r: String)
    ensures
        r@ == summary_title(*s),
{
    let mut out = owned_str("trail summary: ");
    push_decimal(&mut out, s.commits);
    out.append(" commits by ");
    push_decimal(&mut out, s.authors.len());
    out.append(" author(s)\n");
    out.append("\n");
    assert(out@ =~= summary_title(*s));
    out
}

fn period_string(commits: &Vec<CommitInfo>) -> (r: String)
    requires
        period_writable(commits@),
    ensures
        r@ == period_line(commits@),
{
    let mut out = String::new();
    let n = commits.len();
    if n > 0 {
        out.append("  Period: ");
        push_byte_prefix(&mut out, commits[n - 1].date.as_str(), 16);
        out.append(" to ");
        push_byte_prefix(&mut out, commits[0].date.as_str(), 16);
        out.append("\n");
    }
    assert(out@ =~= period_line(commits@));
    out
}

fn summary_figures_string(s: &Summary) -> (r: String)
    ensures
        r@ == summary_figures(*s),
{
    let mut out = owned_str("  Authors: ");
    push_joined(&mut out, &s.authors, ", ");
    out.append("\n");
    out.append("  Changes: +");
    push_decimal(&mut out, s.insertions);
    out.append(" -");
    push_decimal(&mut out, s.deletions);
    out.append(" across ");
    push_decimal(&mut out, s.files_changed);
    out.append(" file edits\n");
    assert(out@ =~= summary_figures(*s));
    out
}

fn evidence_string(w: usize) -> (r: String)
    ensures
        r@ == evidence_line(w as nat),
{
    let mut out = String::new();
    if w > 0 {
        out.append("  Evidence: ");
        push_decimal(&mut out, w);
        out.append(" witness recording(s)\n");
    }
    assert(out@ =~= evidence_line(w as nat));
    out
}

fn recent_string(commits: &Vec<CommitInfo>) -> (r: String)
    ensures
        r@ == recent_lines(commits@),
{
    let n: usize = if commits.len() <= 5 { commits.len() } else { 5 };
    let ghost lines = Seq::new(recent_count(commits@.len()), |i: int| recent_line(commits@[i]));
    let mut out = String::new();
    let mut k: usize = 0;
    assert(lines.take(0) =~= Seq::<Seq<char>>::empty());
    while k < n
        invariant
            k <= n,
            n == recent_count(commits@.len()),
            n <= commits.len(),
            lines == Seq::new(recent_count(commits@.len()), |i: int| recent_line(commits@[i])),
            out@ == concat(lines.take(k as int)),
        decreases n - k,
    {
        let ghost before = out@;
        proof {
            lemma_concat_step(lines, k as int);
        }
        out.append("    ");
        out.append(commits[k].short_sha.as_str());
        out.append(" ");
        out.append(commits[k].subject.as_str());
        out.append("\n");
        assert(out@ =~= before + recent_line(commits@[k as int]));
        k = k + 1;
    }
    assert(lines.take(n as int) =~= lines);
    out
}

fn more_string(n: usize) -> (r: String)
    ensures
        r@ == more_line(n as nat),
{
    let mut out = String::new();
    if n > 5 {
        out.append("    ... and ");
        push_decimal(&mut out, n - 5);
        out.append(" more\n");
    }
    assert(out@ =~= more_line(n as nat));
    out
}

fn owned_str(s: &str) -> (r: String)
    ensures
        r@ == s@,
{
    crate::text::owned(s)
}

/// The text of summary `summary` of `commits` (newest first).
pub fn render_summary_text(commits: &Vec<CommitInfo>, summary: &Summary) -> (text: String)
    requires
        period_writable(commits@),
    ensures
        text@ == summary_text(commits@, *summary),
{
    let a = summary_title_string(summary);
    let b = period_string(commits);
    let c = summary_figures_string(summary);
    let d = evidence_string(summary.witness_evidence);
    let e = recent_string(commits);
    let f = more_string(commits.len());
    let mut out = String::new();
    out.append(a.as_str());
    out.append(b.as_str());
    out.append(c.as_str());
    out.append(d.as_str());
    out.append("\n");
    out.append("  Recent:\n");
    out.append(e.as_str());
    out.append(f.as_str());
    assert(out@ =~= summary_text(commits@, *summary));
    out
}

// ---------------------------------------------------------------------
// Commit detail
// ---------------------------------------------------------------------

/// The header of a commit's detail: short hash, subject, author, full
/// date and statistics.
pub open spec fn detail_head(c: CommitInfo) -> Seq<char> {
    "trail show: "@ + c.short_sha@ + "\n"@ + "\n"@ + "  Subject: "@ + c.subject@ + "\n"@
        + "  Author: "@ + c.author@ + "\n"@ + "  Date: "@ + c.date@ + "\n"@ + "  Stats: "@
        + stats_text(c) + "\n"@
}

/// A line of a commit message, indented.
pub open spec fn message_line(l: Seq<char>) -> Seq<char> {
    "    "@ + l + "\n"@
}

/// The commit message, trimmed, line by line, where it is not blank.
pub open spec fn message_block(body: Seq<char>) -> Seq<char> {
    if trim(body).len() > 0 {
        "\n"@ + "  Message:\n"@ + concat(lines(trim(body)).map_values(|l: Seq<char>| message_line(l)))
    } else {
        Seq::empty()
    }
}

/// The line of a changed file: counts padded to four characters, path.
pub open spec fn file_line(f: FileChangeModel) -> Seq<char> {
    "    +"@ + pad_right(decimal(f.additions as nat), 4) + " -"@ + pad_right(decimal(f.deletions as nat), 4)
        + " "@ + f.path + "\n"@
}

/// The changed files, where there are any.
pub open spec fn files_block(fs: Seq<FileChangeModel>) -> Seq<char> {
    if fs.len() > 0 {
        "\n"@ + "  Files:\n"@ + concat(fs.map_values(|f: FileChangeModel| file_line(f)))
    } else {
        Seq::empty()
    }
}

/// The detail line of a witness recording: mark, id, full command, tag.
pub open spec fn detail_witness_line(w: WitnessRefModel) -> Seq<char> {
    "    "@ + icon(w.exit_code) + " "@ + w.id + " `"@ + w.command + "`"@ + tag_suffix(w.tag) + "\n"@
}

/// The witness recordings, where there are any.
pub open spec fn witness_block(ws: Seq<WitnessRefModel>) -> Seq<char> {
    if ws.len() > 0 {
        "\n"@ + "  Witness evidence:\n"@ + concat(ws.map_values(|w: WitnessRefModel| detail_witness_line(w)))
    } else {
        Seq::empty()
    }
}

/// The latch note, where there is one.
pub open spec fn latch_block(l: Option<Seq<char>>) -> Seq<char> {
    match l {
        Some(ctx) => "\n"@ + "  Latch: "@ + ctx + "\n"@,
        None => Seq::empty(),
    }
}

/// The text of the detail of commit `c` with evidence `e`.
pub open spec fn detail_text(c: CommitInfo, e: CommitEvidence) -> Seq<char> {
    detail_head(c) + message_block(c.body@) + files_block(change_views(c.files_changed@)) + witness_block(
        witness_views(e.witness_runs@),
    ) + latch_block(opt_view(e.latch_context))
}

fn detail_head_string(c: &CommitInfo) -> (r: String)
    ensures
        r@ == detail_head(*c),
{
    let mut out = owned_str("trail show: ");
    out.append(c.short_sha.as_str());
    out.append("\n");
    out.append("\n");
    out.append("  Subject: ");
    out.append(c.subject.as_str());
    out.append("\n");
    out.append("  Author: ");
    out.append(c.author.as_str());
    out.append("\n");
    out.append("  Date: ");
    out.append(c.date.as_str());
    out.append("\n");
    out.append("  Stats: ");
    push_stats(&mut out, c);
    out.append("\n");
    assert(out@ =~= detail_head(*c));
    out
}

fn message_string(body: &String) -> (r: String)
    ensures
        r@ == message_block(body@),
{
    let chars = to_chars(body.as_str());
    let (a, b) = trim_bounds(&chars, 0, chars.len());
    assert(chars@.subrange(0, chars@.len() as int) =~= chars@);
    let mut out = String::new();
    if a == b {
        assert(out@ =~= message_block(body@));
        return out;
    }
    let t = sub_chars(&chars, a, b);
    let ls = lines_chars(&t);
    let ghost parts = lines(t@).map_values(|l: Seq<char>| message_line(l));
    out.append("\n");
    out.append("  Message:\n");
    let ghost start = out@;
    let mut k: usize = 0;
    assert(parts.take(0) =~= Seq::<Seq<char>>::empty());
    while k < ls.len()
        invariant
            k <= ls.len(),
            views(ls@) == lines(t@),
            parts == lines(t@).map_values(|l: Seq<char>| message_line(l)),
            out@ == start + concat(parts.take(k as int)),
        decreases ls.len() - k,
    {
        let ghost before = out@;
        proof {
            lemma_concat_step(parts, k as int);
        }
        let line = string_of(&ls[k], 0, ls[k].len());
        assert(ls@[k as int]@.subrange(0, ls@[k as int]@.len() as int) =~= ls@[k as int]@);
        assert(views(ls@)[k as int] == ls@[k as int]@);
        out.append("    ");
        out.append(line.as_str());
        out.append("\n");
        assert(out@ =~= before + parts[k as int]);
        k = k + 1;
    }
    assert(parts.take(ls.len() as int) =~= parts);
    assert(out@ =~= message_block(body@));
    out
}

fn file_line_string(f: &FileChange) -> (r: String)
    ensures
        r@ == file_line(f@),
{
    let mut out = owned_str("    +");
    push_padded_decimal(&mut out, f.additions, 4);
    out.append(" -");
    push_padded_decimal(&mut out, f.deletions, 4);
    out.append(" ");
    out.append(f.path.as_str());
    out.append("\n");
    assert(out@ =~= file_line(f@));
    out
}

fn files_string(fs: &Vec<FileChange>) -> (r: String)
    ensures
        r@ == files_block(change_views(fs@)),
{
    let mut out = String::new();
    if fs.len() == 0 {
        assert(out@ =~= files_block(change_views(fs@)));
        return out;
    }
    let ghost parts = change_views(fs@).map_values(|f: FileChangeModel| file_line(f));
    out.append("\n");
    out.append("  Files:\n");
    let ghost start = out@;
    let mut k: usize = 0;
    assert(parts.take(0) =~= Seq::<Seq<char>>::empty());
    while k < fs.len()
        invariant
            k <= fs.len(),
            parts == change_views(fs@).map_values(|f: FileChangeModel| file_line(f)),
            out@ == start + concat(parts.take(k as int)),
        decreases fs.len() - k,
    {
        let ghost before = out@;
        proof {
            lemma_concat_step(parts, k as int);
        }
        let line = file_line_string(&fs[k]);
        out.append(line.as_str());
        assert(parts[k as int] == file_line(fs@[k as int]@));
        assert(out@ =~= before + parts[k as int]);
        k = k + 1;
    }
    assert(parts.take(fs.len() as int) =~= parts);
    assert(out@ =~= files_block(change_views(fs@)));
    out
}

fn detail_witness_line_string(w: &WitnessRef) -> (r: String)
    ensures
        r@ == detail_witness_line(w@),
{
    let mut out = owned_str("    ");
    push_icon(&mut out, w.exit_code);
    out.append(" ");
    out.append(w.id.as_str());
    out.append(" `");
    out.append(w.command.as_str());
    out.append("`");
    push_tag_suffix(&mut out, &w.tag);
    out.append("\n");
    assert(out@ =~= detail_witness_line(w@));
    out
}

fn witness_string(ws: &Vec<WitnessRef>) -> (r: String)
    ensures
        r@ == witness_block(witness_views(ws@)),
{
    let mut out = String::new();
    if ws.len() == 0 {
        assert(out@ =~= witness_block(witness_views(ws@)));
        return out;
    }
    let ghost parts = witness_views(ws@).map_values(|w: WitnessRefModel| detail_witness_line(w));
    out.append("\n");
    out.append("  Witness evidence:\n");
    let ghost start = out@;
    let mut k: usize = 0;
    assert(parts.take(0) =~= Seq::<Seq<char>>::empty());
    while k < ws.len()
        invariant
            k <= ws.len(),
            parts == witness_views(ws@).map_values(|w: WitnessRefModel| detail_witness_line(w)),
            out@ == start + concat(parts.take(k as int)),
        decreases ws.len() - k,
    {
        let ghost before = out@;
        proof {
            lemma_concat_step(parts, k as int);
        }
        let line = detail_witness_line_string(&ws[k]);
        out.append(line.as_str());
        assert(parts[k as int] == detail_witness_line(ws@[k as int]@));
        assert(out@ =~= before + parts[k as int]);
        k = k + 1;
    }
    assert(parts.take(ws.len() as int) =~= parts);
    assert(out@ =~= witness_block(witness_views(ws@)));
    out
}

fn latch_string(l: &Option<String>) -> (r: String)
    ensures
        r@ == latch_block(opt_view(*l)),
{
    let mut out = String::new();
    match l {
        Some(ctx) => {
            out.append("\n");
            out.append("  Latch: ");
            out.append(ctx.as_str());
            out.append("\n");
        },
        None => {},
    }
    assert(out@ =~= latch_block(opt_view(*l)));
    out
}

/// The text of the detail of `commit` with its evidence.
pub fn render_commit_detail_text(commit: &CommitInfo, evidence: &CommitEvidence) -> (text: String)
    ensures
        text@ == detail_text(*commit, *evidence),
{
    let a = detail_head_string(commit);
    let b = message_string(&commit.body);
    let c = files_string(&commit.files_changed);
    let d = witness_string(&evidence.witness_runs);
    let e = latch_string(&evidence.latch_context);
    let mut out = String::new();
    out.append(a.as_str());
    out.append(b.as_str());
    out.append(c.as_str());
    out.append(d.as_str());
    out.append(e.as_str());
    assert(out@ =~= detail_text(*commit, *evidence));
    out
}

// ---------------------------------------------------------------------
// Evidence sources
// ---------------------------------------------------------------------

/// A tick for a source that is there, a dot for one that is not.
pub open spec fn mark(present: bool) -> Seq<char> {
    if present {
        "\u{2713}"@
    } else {
        "\u{b7}"@
    }
}

/// The list of evidence sources, each marked present or absent, with
/// where it lives.
pub open spec fn sources_text(s: EvidenceSources) -> Seq<char> {
    "trail sources:\n"@ + "\n"@ + "  "@ + mark(s.witness) + " witness \u{2014} .agent-witness/evidence/\n"@
        + "  "@ + mark(s.latch) + " latch   \u{2014} .latch.db\n"@ + "  "@ + mark(s.probe)
        + " probe   \u{2014} .agent-probe/\n"@ + "  "@ + mark(s.atlas) + " atlas   \u{2014} .agent-atlas/\n"@
}

fn push_mark(out: &mut String, present: bool)
    ensures
        final(out)@ == old(out)@ + mark(present),
{
    if present {
        out.append("\u{2713}");
    } else {
        out.append("\u{b7}");
    }
}

/// The text of the list of evidence sources.
pub fn render_sources_text(sources: &EvidenceSources) -> (text: String)
    ensures
        text@ == sources_text(*sources),
{
    let mut out = owned_str("trail sources:\n");
    out.append("\n");
    out.append("  ");
    push_mark(&mut out, sources.witness);
    out.append(" witness \u{2014} .agent-witness/evidence/\n");
    out.append("  ");
    push_mark(&mut out, sources.latch);
    out.append(" latch   \u{2014} .latch.db\n");
    out.append("  ");
    push_mark(&mut out, sources.probe);
    out.append(" probe   \u{2014} .agent-probe/\n");
    out.append("  ");
    push_mark(&mut out, sources.atlas);
    out.append(" atlas   \u{2014} .agent-atlas/\n");
    assert(out@ =~= sources_text(*sources));
    out
}

/// The summary of given commits is fixed in every figure, whatever the
/// evidence, but for the witness count: two summaries of the same commits
/// list the same authors, in the same order, and the same totals.
pub proof fn lemma_summary_determined(s1: Summary, s2: Summary, cs: Seq<CommitInfo>, es1: Seq<CommitEvidence>, es2: Seq<CommitEvidence>)
    requires
        is_summary_of(s1, cs, es1),
        is_summary_of(s2, cs, es2),
    ensures
        string_views(s1.authors@) == string_views(s2.authors@),
        s1.commits == s2.commits,
        s1.files_changed == s2.files_changed,
        s1.insertions == s2.insertions,
        s1.deletions == s2.deletions,
        opt_view(s1.oldest) == opt_view(s2.oldest),
        opt_view(s1.newest) == opt_view(s2.newest),
        s1.recent == s2.recent,
{
    assert forall|x: Seq<char>| string_views(s1.authors@).contains(x) <==> string_views(s2.authors@).contains(x) by {
        assert(string_views(s1.authors@).contains(x) <==> author_views(cs).contains(x));
        assert(string_views(s2.authors@).contains(x) <==> author_views(cs).contains(x));
    }
    lemma_strictly_sorted_unique(string_views(s1.authors@), string_views(s2.authors@));
}

proof fn lemma_encode_concat(a: Seq<char>, b: Seq<char>)
    ensures
        encode_utf8(a + b) == encode_utf8(a) + encode_utf8(b),
    decreases a.len(),
{
    if a.len() > 0 {
        lemma_encode_concat(a.drop_first(), b);
        assert((a + b).drop_first() =~= a.drop_first() + b);
        assert((a + b)[0] == a[0]);
        assert(encode_utf8(a + b) =~= encode_utf8(a) + encode_utf8(b));
    } else {
        assert(a + b =~= b);
        assert(encode_utf8(a) =~= Seq::<u8>::empty());
        assert(encode_utf8(a) + encode_utf8(b) =~= encode_utf8(b));
    }
}

/// A truncated text is the text itself where it fits in `max` bytes;
/// otherwise it is its first `max` bytes and the three bytes of `...`,
/// so it never takes more than `max + 3` bytes.
pub proof fn lemma_truncated_bytes(s: Seq<char>, max: nat)
    requires
        bytes_of(s).len() <= max || cuttable(s, max as int),
    ensures
        bytes_of(s).len() <= max ==> truncated(s, max as int) == s,
        bytes_of(s).len() > max ==> bytes_of(truncated(s, max as int)) == bytes_of(s).take(max as int)
            + seq![46u8, 46u8, 46u8],
        bytes_of(truncated(s, max as int)).len() <= max + 3,
{
    if bytes_of(s).len() > max {
        let b = bytes_of(s);
        vstd::utf8::encode_utf8_valid_utf8(s);
        vstd::utf8::valid_utf8_split(b, max as int);
        let p = b.subrange(0, max as int);
        assert(b.take(max as int) =~= p);
        vstd::utf8::decode_utf8_encode_utf8(p);
        let head = byte_prefix(s, max as int);
        assert(encode_utf8(head) == p);
        reveal_strlit("...");
        let dots = "..."@;
        let e0 = Seq::<char>::empty();
        let d1 = seq!['.'];
        let d2 = seq!['.', '.'];
        let d3 = seq!['.', '.', '.'];
        assert(dots =~= d3);
        assert(d1.drop_first() =~= e0);
        assert(d2.drop_first() =~= d1);
        assert(d3.drop_first() =~= d2);
        assert(('.' as u32) == 46u32);
        assert((46u32 & 0x7Fu32) == 46u32) by (bit_vector);
        assert(vstd::utf8::encode_scalar('.' as u32) =~= seq![46u8]);
        assert(encode_utf8(e0) =~= Seq::<u8>::empty());
        assert(encode_utf8(d1) == vstd::utf8::encode_scalar('.' as u32) + encode_utf8(e0));
        assert(encode_utf8(d1) =~= seq![46u8]);
        assert(encode_utf8(d2) == vstd::utf8::encode_scalar('.' as u32) + encode_utf8(d1));
        assert(encode_utf8(d2) =~= seq![46u8, 46u8]);
        assert(encode_utf8(d3) == vstd::utf8::encode_scalar('.' as u32) + encode_utf8(d2));
        assert(encode_utf8(dots) =~= seq![46u8, 46u8, 46u8]);
        lemma_encode_concat(head, dots);
    }
}

/// The figures of a summary do not depend on the order of the commits or
/// of the evidence: summaries of the same commits and the same evidence,
/// each in any order, list the same authors and the same totals.
pub proof fn lemma_summary_permutation(
    s1: Summary,
    s2: Summary,
    cs1: Seq<CommitInfo>,
    cs2: Seq<CommitInfo>,
    es1: Seq<CommitEvidence>,
    es2: Seq<CommitEvidence>,
)
    requires
        is_summary_of(s1, cs1, es1),
        is_summary_of(s2, cs2, es2),
        cs1.to_multiset() == cs2.to_multiset(),
        es1.to_multiset() == es2.to_multiset(),
    ensures
        s1.commits == s2.commits,
        string_views(s1.authors@) == string_views(s2.authors@),
        s1.files_changed == s2.files_changed,
        s1.insertions == s2.insertions,
        s1.deletions == s2.deletions,
        s1.witness_evidence == s2.witness_evidence,
{
    vstd::seq_lib::to_multiset_len(cs1);
    vstd::seq_lib::to_multiset_len(cs2);
    lemma_total_permutation(cs1, cs2, |c: CommitInfo| c.files_changed@.len());
    lemma_total_permutation(cs1, cs2, |c: CommitInfo| c.insertions as nat);
    lemma_total_permutation(cs1, cs2, |c: CommitInfo| c.deletions as nat);
    lemma_total_permutation(es1, es2, |e: CommitEvidence| e.witness_runs@.len());
    assert forall|x: Seq<char>| author_views(cs1).contains(x) implies author_views(cs2).contains(x) by {
        let i = choose|i: int| 0 <= i < author_views(cs1).len() && author_views(cs1)[i] == x;
        lemma_permutation_contains(cs1, cs2, cs1[i]);
        assert(cs1.contains(cs1[i]));
        let j = choose|j: int| 0 <= j < cs2.len() && cs2[j] == cs1[i];
        assert(author_views(cs2)[j] == x);
    }
    assert forall|x: Seq<char>| author_views(cs2).contains(x) implies author_views(cs1).contains(x) by {
        let i = choose|i: int| 0 <= i < author_views(cs2).len() && author_views(cs2)[i] == x;
        lemma_permutation_contains(cs1, cs2, cs2[i]);
        assert(cs2.contains(cs2[i]));
        let j = choose|j: int| 0 <= j < cs1.len() && cs1[j] == cs2[i];
        assert(author_views(cs1)[j] == x);
    }
    assert forall|x: Seq<char>| string_views(s1.authors@).contains(x) <==> string_views(s2.authors@).contains(x) by {
        assert(string_views(s1.authors@).contains(x) <==> author_views(cs1).contains(x));
        assert(string_views(s2.authors@).contains(x) <==> author_views(cs2).contains(x));
    }
    lemma_strictly_sorted_unique(string_views(s1.authors@), string_views(s2.authors@));
}

/// Whether a summary's totals fit in a `usize` does not depend on the
/// order of the commits or of the evidence, so a summary of them in one
/// order exists exactly where one in any other order does.
pub proof fn lemma_summary_fits_permutation(
    cs1: Seq<CommitInfo>,
    cs2: Seq<CommitInfo>,
    es1: Seq<CommitEvidence>,
    es2: Seq<CommitEvidence>,
)
    requires
        cs1.to_multiset() == cs2.to_multiset(),
        es1.to_multiset() == es2.to_multiset(),
    ensures
        summary_fits(cs1, es1) == summary_fits(cs2, es2),
{
    lemma_total_permutation(cs1, cs2, |c: CommitInfo| c.files_changed@.len());
    lemma_total_permutation(cs1, cs2, |c: CommitInfo| c.insertions as nat);
    lemma_total_permutation(cs1, cs2, |c: CommitInfo| c.deletions as nat);
    lemma_total_permutation(es1, es2, |e: CommitEvidence| e.witness_runs@.len());
}

/// The changelog pairs commits and evidence in order: one more commit with
/// its evidence, after as many of each, adds that commit's block, with its
/// own witness recordings, at the end.
pub proof fn lemma_log_text_push(cs: Seq<CommitInfo>, es: Seq<CommitEvidence>, c: CommitInfo, e: CommitEvidence)
    requires
        cs.len() == es.len(),
    ensures
        log_text(cs.push(c), es.push(e)) == log_text(cs, es) + log_block(c, e),
{
    let n = cs.len();
    let big = Seq::new(n + 1, |i: int| log_block(cs.push(c)[i], es.push(e)[i]));
    let small = Seq::new(n, |i: int| log_block(cs[i], es[i]));
    assert(big.drop_last() =~= small);
    assert(big.last() == log_block(c, e));
}

/// The changelog of two runs of commits, each paired with as many evidence
/// entries, is the changelog of the first run followed by that of the
/// second: each commit keeps the evidence at its own position.
pub proof fn lemma_log_text_append(
    cs1: Seq<CommitInfo>,
    es1: Seq<CommitEvidence>,
    cs2: Seq<CommitInfo>,
    es2: Seq<CommitEvidence>,
)
    requires
        cs1.len() == es1.len(),
        cs2.len() == es2.len(),
    ensures
        log_text(cs1 + cs2, es1 + es2) == log_text(cs1, es1) + log_text(cs2, es2),
    decreases cs2.len(),
{
    if cs2.len() == 0 {
        assert(cs1 + cs2 =~= cs1);
        assert(es1 + es2 =~= es1);
        assert(Seq::new(0, |i: int| log_block(cs2[i], es2[i])) =~= Seq::<Seq<char>>::empty());
        assert(log_text(cs2, es2) =~= Seq::<char>::empty());
        assert(log_text(cs1, es1) + log_text(cs2, es2) =~= log_text(cs1, es1));
    } else {
        let c = cs2.last();
        let e = es2.last();
        let cp = cs2.drop_last();
        let ep = es2.drop_last();
        lemma_log_text_append(cs1, es1, cp, ep);
        assert(cs1 + cs2 =~= (cs1 + cp).push(c));
        assert(es1 + es2 =~= (es1 + ep).push(e));
        assert(cs2 =~= cp.push(c));
        assert(es2 =~= ep.push(e));
        let t1 = log_text(cs1, es1);
        let tp = log_text(cp, ep);
        let b = log_block(c, e);
        assert(log_text(cs1 + cs2, es1 + es2) == log_text(cs1 + cp, es1 + ep) + b) by {
            lemma_log_text_push(cs1 + cp, es1 + ep, c, e);
        }
        assert(log_text(cs2, es2) == tp + b) by {
            lemma_log_text_push(cp, ep, c, e);
        }
        assert((t1 + tp) + b =~= t1 + (tp + b));
    }
}

/// The changelog goes as far as both lists go: commits without evidence,
/// or evidence without commits, add nothing.
pub proof fn lemma_log_text_shorter(cs: Seq<CommitInfo>, es: Seq<CommitEvidence>)
    ensures
        cs.len() <= es.len() ==> log_text(cs, es) == log_text(cs, es.take(cs.len() as int)),
        es.len() <= cs.len() ==> log_text(cs, es) == log_text(cs.take(es.len() as int), es),
{
    if cs.len() <= es.len() {
        let n = cs.len();
        assert(Seq::new(n, |i: int| log_block(cs[i], es[i])) =~= Seq::new(
            n,
            |i: int| log_block(cs[i], es.take(n as int)[i]),
        ));
    }
    if es.len() <= cs.len() {
        let n = es.len();
        assert(Seq::new(n, |i: int| log_block(cs[i], es[i])) =~= Seq::new(
            n,
            |i: int| log_block(cs.take(n as int)[i], es[i]),
        ));
    }
}

/// The changelog lines of a commit list each of its witness recordings in
/// order: one more recording adds its line at the end.
pub proof fn lemma_log_witness_lines_push(ws: Seq<WitnessRefModel>, w: WitnessRefModel)
    ensures
        log_witness_lines(ws.push(w)) == log_witness_lines(ws) + log_witness_line(w),
{
    let f = |x: WitnessRefModel| log_witness_line(x);
    assert(ws.push(w).map_values(f) =~= ws.map_values(f).push(f(w)));
    lemma_concat_push(ws.map_values(f), f(w));
}

/// The witness block of a commit's detail lists every recording in order:
/// the first one opens the block under its heading, and each further one
/// adds its line at the end.
pub proof fn lemma_witness_block_push(ws: Seq<WitnessRefModel>, w: WitnessRefModel)
    ensures
        witness_block(ws.push(w)) == (if ws.len() == 0 {
            "\n"@ + "  Witness evidence:\n"@
        } else {
            witness_block(ws)
        }) + detail_witness_line(w),
{
    let f = |x: WitnessRefModel| detail_witness_line(x);
    assert(ws.push(w).map_values(f) =~= ws.map_values(f).push(f(w)));
    lemma_concat_push(ws.map_values(f), f(w));
    if ws.len() == 0 {
        assert(ws.map_values(f) =~= Seq::<Seq<char>>::empty());
        assert(concat(ws.map_values(f)) =~= Seq::<char>::empty());
    }
}

/// The files block of a commit's detail lists every changed file in
/// order: the first one opens the block under its heading, and each
/// further one adds its line at the end.
pub proof fn lemma_files_block_push(fs: Seq<FileChangeModel>, f: FileChangeModel)
    ensures
        files_block(fs.push(f)) == (if fs.len() == 0 {
            "\n"@ + "  Files:\n"@
        } else {
            files_block(fs)
        }) + file_line(f),
{
    let g = |x: FileChangeModel| file_line(x);
    assert(fs.push(f).map_values(g) =~= fs.map_values(g).push(g(f)));
    lemma_concat_push(fs.map_values(g), g(f));
    if fs.len() == 0 {
        assert(fs.map_values(g) =~= Seq::<Seq<char>>::empty());
        assert(concat(fs.map_values(g)) =~= Seq::<char>::empty());
    }
}

/// A summary lists the newest five commits: below five, one more commit
/// adds its line; from five on, it adds none.
pub proof fn lemma_recent_lines_push(cs: Seq<CommitInfo>, c: CommitInfo)
    ensures
        cs.len() < 5 ==> recent_lines(cs.push(c)) == recent_lines(cs) + recent_line(c),
        cs.len() >= 5 ==> recent_lines(cs.push(c)) == recent_lines(cs),
{
    let n = recent_count(cs.len());
    let small = Seq::new(n, |i: int| recent_line(cs[i]));
    if cs.len() < 5 {
        let big = Seq::new(n + 1, |i: int| recent_line(cs.push(c)[i]));
        assert(big.drop_last() =~= small);
        assert(big.last() == recent_line(c));
    } else {
        assert(Seq::new(recent_count(cs.push(c).len()), |i: int| recent_line(cs.push(c)[i])) =~= small);
    }
}

/// Each line of the list of sources carries its own source's mark: the
/// witness, latch, probe and atlas lines, in that order, each start with a
/// tick exactly where that source is there and a dot where it is not.
pub proof fn lemma_sources_marks(s: EvidenceSources)
    ensures
        sources_text(s).len() == 135,
        sources_text(s)[18] == (if s.witness { '\u{2713}' } else { '\u{b7}' }),
        sources_text(s)[57] == (if s.latch { '\u{2713}' } else { '\u{b7}' }),
        sources_text(s)[81] == (if s.probe { '\u{2713}' } else { '\u{b7}' }),
        sources_text(s)[109] == (if s.atlas { '\u{2713}' } else { '\u{b7}' }),
{
    reveal_strlit("trail sources:\n");
    reveal_strlit("\n");
    reveal_strlit("  ");
    reveal_strlit("\u{2713}");
    reveal_strlit("\u{b7}");
    reveal_strlit(" witness \u{2014} .agent-witness/evidence/\n");
    reveal_strlit(" latch   \u{2014} .latch.db\n");
    reveal_strlit(" probe   \u{2014} .agent-probe/\n");
    reveal_strlit(" atlas   \u{2014} .agent-atlas/\n");
    let head = "trail sources:\n"@ + "\n"@ + "  "@;
    let w = head + mark(s.witness);
    let wl = w + " witness \u{2014} .agent-witness/evidence/\n"@ + "  "@;
    let l = wl + mark(s.latch);
    let ll = l + " latch   \u{2014} .latch.db\n"@ + "  "@;
    let p = ll + mark(s.probe);
    let pl = p + " probe   \u{2014} .agent-probe/\n"@ + "  "@;
    let a = pl + mark(s.atlas);
    assert(head.len() == 18);
    assert(w.len() == 19 && w[18] == mark(s.witness)[0]);
    assert(wl.len() == 57);
    assert(l.len() == 58 && l[57] == mark(s.latch)[0]);
    assert(ll.len() == 81);
    assert(p.len() == 82 && p[81] == mark(s.probe)[0]);
    assert(pl.len() == 109);
    assert(a.len() == 110 && a[109] == mark(s.atlas)[0]);
    assert(sources_text(s) == a + " atlas   \u{2014} .agent-atlas/\n"@);
}

} // verus!
