//! Evidence around a commit: which evidence sources a project has, the
//! witness recordings made on the day of a commit, and the latch ledger.

use vstd::prelude::*;
use vstd::utf8::{encode_utf8, is_char_boundary};
use crate::git::CommitInfo;
use crate::text::{
    copy_string, filter_map, opt_view, to_chars, lemma_filter_map_prefix, lemma_filter_map_push, lemma_filter_map_step, owned,
    string_views,
};

verus! {

/// The evidence sources that a project holds.
#[derive(Debug)]
pub struct EvidenceSources {
    pub witness: bool,
    pub latch: bool,
    pub probe: bool,
    pub atlas: bool,
}

/// One evidence source.
#[derive(Debug)]
pub enum Source {
    Witness,
    Latch,
    Probe,
    Atlas,
}

impl Source {
    /// Where the source lives, relative to the project root; witness
    /// evidence is the `.json` files of that directory.
    pub fn location(&self) -> (p: &'static str)
        ensures
            p@ == match self {
                Source::Witness => ".agent-witness/evidence"@,
                Source::Latch => ".latch.db"@,
                Source::Probe => ".agent-probe"@,
                Source::Atlas => ".agent-atlas"@,
            },
    {
        match self {
            Source::Witness => ".agent-witness/evidence",
            Source::Latch => ".latch.db",
            Source::Probe => ".agent-probe",
            Source::Atlas => ".agent-atlas",
        }
    }
}

/// A `.json` file name: its extension, what follows its last dot, is
/// `json`, and that dot does not start the name (std's `Path::extension`).
pub open spec fn is_json_name(name: Seq<char>) -> bool {
    name.len() >= 6 && name.subrange(name.len() - 5, name.len() as int) == seq!['.', 'j', 's', 'o', 'n']
}

/// Whether `name` is a `.json` file name (see [`is_json_name`]).
pub fn is_json_file_name(name: &str) -> (b: bool)
    ensures
        b == is_json_name(name@),
{
    let v = to_chars(name);
    let n = v.len();
    if n < 6 {
        return false;
    }
    let b = v[n - 5] == '.' && v[n - 4] == 'j' && v[n - 3] == 's' && v[n - 2] == 'o' && v[n - 1] == 'n';
    let ghost suffix = v@.subrange(n - 5, n as int);
    if b {
        assert(suffix =~= seq!['.', 'j', 's', 'o', 'n']);
    } else {
        assert(suffix[0] != '.' || suffix[1] != 'j' || suffix[2] != 's' || suffix[3] != 'o' || suffix[4] != 'n');
    }
    b
}

/// The `.json` names among `names`, in order.
pub open spec fn json_names(names: Seq<Seq<char>>) -> Seq<Seq<char>> {
    filter_map(names, |n: Seq<char>| if is_json_name(n) { Some(n) } else { None })
}

/// The names of the witness files among the entries of the witness
/// directory: its `.json` files, in the order listed.
pub fn json_files(names: &Vec<String>) -> (r: Vec<String>)
    ensures
        string_views(r@) == json_names(string_views(names@)),
{
    let ghost nv = string_views(names@);
    let ghost f = |n: Seq<char>| if is_json_name(n) { Some(n) } else { None };
    let mut out: Vec<String> = Vec::new();
    let mut k: usize = 0;
    assert(nv.take(0) =~= Seq::<Seq<char>>::empty());
    assert(string_views(out@) =~= filter_map(nv.take(0), f));
    while k < names.len()
        invariant
            k <= names.len(),
            nv == string_views(names@),
            f == (|n: Seq<char>| if is_json_name(n) { Some(n) } else { None }),
            string_views(out@) == filter_map(nv.take(k as int), f),
        decreases names.len() - k,
    {
        proof {
            lemma_filter_map_step(nv, k as int, f);
        }
        assert(nv[k as int] == names@[k as int]@);
        if is_json_file_name(names[k].as_str()) {
            let ghost before = string_views(out@);
            out.push(copy_string(&names[k]));
            assert(string_views(out@) =~= before.push(names@[k as int]@));
        }
        k = k + 1;
    }
    assert(nv.take(names.len() as int) =~= nv);
    out
}

/// Some entry name is a `.json` file name.
pub open spec fn has_json_name(names: Seq<Seq<char>>) -> bool {
    exists|i: int| 0 <= i < names.len() && is_json_name(#[trigger] names[i])
}

/// The sources of a project: witness evidence where the witness directory
/// holds a `.json` file (`witness_entries` are the names of its entries,
/// none where it does not exist), and the other sources where their
/// locations exist.
pub fn detect_sources(witness_entries: &Vec<String>, latch: bool, probe: bool, atlas: bool) -> (s: EvidenceSources)
    ensures
        s.witness == has_json_name(string_views(witness_entries@)),
        s.latch == latch,
        s.probe == probe,
        s.atlas == atlas,
{
    let ghost nv = string_views(witness_entries@);
    let mut witness = false;
    let mut k: usize = 0;
    while k < witness_entries.len()
        invariant
            k <= witness_entries.len(),
            nv == string_views(witness_entries@),
            witness == exists|i: int| 0 <= i < k && is_json_name(#[trigger] nv[i]),
        decreases witness_entries.len() - k,
    {
        assert(nv[k as int] == witness_entries@[k as int]@);
        if is_json_file_name(witness_entries[k].as_str()) {
            witness = true;
        }
        k = k + 1;
    }
    EvidenceSources { witness, latch, probe, atlas }
}

/// A witness recording, as a report lists it.
#[derive(Debug, Clone)]
pub struct WitnessRef {
    pub id: String,
    pub command: String,
    pub exit_code: i32,
    pub tag: Option<String>,
}

/// A witness reference as plain values.
pub struct WitnessRefModel {
    pub id: Seq<char>,
    pub command: Seq<char>,
    pub exit_code: i32,
    pub tag: Option<Seq<char>>,
}

impl View for WitnessRef {
    type V = WitnessRefModel;

    open spec fn view(&self) -> WitnessRefModel {
        WitnessRefModel {
            id: self.id@,
            command: self.command@,
            exit_code: self.exit_code,
            tag: opt_view(self.tag),
        }
    }
}

/// The views of a sequence of witness references.
pub open spec fn witness_views(v: Seq<WitnessRef>) -> Seq<WitnessRefModel> {
    v.map_values(|w: WitnessRef| w@)
}

/// Evidence correlated to one commit.
#[derive(Debug, Clone)]
pub struct CommitEvidence {
    /// Witness recordings made on the day of the commit.
    pub witness_runs: Vec<WitnessRef>,
    /// The latch ledger's note, where the project has one.
    pub latch_context: Option<String>,
    /// Whether the project holds probe snapshots.
    pub probe_snapshot: bool,
}

/// The fields of a witness recording file that the library reads, each
/// absent where the file lacks it or holds it with another JSON type.
#[derive(Debug)]
pub struct WitnessRecord {
    pub timestamp: Option<String>,
    pub id: Option<String>,
    pub command: Option<String>,
    pub exit_code: Option<i64>,
    pub tag: Option<String>,
}

/// A witness record as plain values.
pub struct WitnessRecordModel {
    pub timestamp: Option<Seq<char>>,
    pub id: Option<Seq<char>>,
    pub command: Option<Seq<char>>,
    pub exit_code: Option<i64>,
    pub tag: Option<Seq<char>>,
}

impl View for WitnessRecord {
    type V = WitnessRecordModel;

    open spec fn view(&self) -> WitnessRecordModel {
        WitnessRecordModel {
            timestamp: opt_view(self.timestamp),
            id: opt_view(self.id),
            command: opt_view(self.command),
            exit_code: self.exit_code,
            tag: opt_view(self.tag),
        }
    }
}

/// What serde_json reads from a witness file: `None` where the text is
/// no JSON document, else the string fields `timestamp`, `id`, `command`,
/// `tag` and the integer field `exit_code` of the document.
pub uninterp spec fn witness_json_fields(content: Seq<char>) -> Option<WitnessRecordModel>;

/// Reads a witness recording with `serde_json::from_str::<Value>`, then
/// takes its fields with `Value`'s indexing, `as_str` and `as_i64`.
/// The contract only ties the result to the text: it is
/// [`witness_json_fields`] of it.
#[verifier::external_body]
fn read_witness_json(content: &str) -> (r: Option<WitnessRecord>)
    ensures
        match r {
            Some(w) => witness_json_fields(content@) == Some(w@),
            None => witness_json_fields(content@) is None,
        },
{
    match serde_json::from_str::<serde_json::Value>(content) {
        Ok(v) => Some(WitnessRecord {
            timestamp: v["timestamp"].as_str().map(String::from),
            id: v["id"].as_str().map(String::from),
            command: v["command"].as_str().map(String::from),
            exit_code: v["exit_code"].as_i64(),
            tag: v["tag"].as_str().map(String::from),
        }),
        Err(_) => None,
    }
}

/// The UTF-8 bytes of a text.
pub open spec fn bytes_of(s: Seq<char>) -> Seq<u8> {
    encode_utf8(s)
}

/// The text, or the empty text where there is none.
pub open spec fn or_empty(o: Option<Seq<char>>) -> Seq<char> {
    match o {
        Some(s) => s,
        None => Seq::empty(),
    }
}

/// Looking at `r` next to a commit dated `commit_date` cuts a string
/// inside a character: the first ten bytes of the commit date, or of a
/// timestamp of ten bytes or more, do not end at a character boundary.
pub open spec fn cuts_a_char(commit_date: Seq<char>, r: WitnessRecordModel) -> bool {
    let ts = bytes_of(or_empty(r.timestamp));
    ||| !is_char_boundary(bytes_of(commit_date), 10)
    ||| (ts.len() >= 10 && !is_char_boundary(ts, 10))
}

/// `r` was recorded on the day of a commit dated `commit_date`: their
/// first ten bytes (`YYYY-MM-DD`) agree.
pub open spec fn same_day(commit_date: Seq<char>, r: WitnessRecordModel) -> bool {
    let ts = bytes_of(or_empty(r.timestamp));
    ts.len() >= 10 && bytes_of(commit_date).take(10) == ts.take(10)
}

/// The reference that a record makes: missing text fields empty, a
/// missing exit code `-1`, an exit code cut to 32 bits.
pub open spec fn witness_ref_of(r: WitnessRecordModel) -> WitnessRefModel {
    WitnessRefModel {
        id: or_empty(r.id),
        command: or_empty(r.command),
        exit_code: match r.exit_code {
            Some(x) => x as i32,
            None => -1i32,
        },
        tag: r.tag,
    }
}

/// The reference that `r` gives a commit dated `commit_date`, if any.
pub open spec fn witness_match(commit_date: Seq<char>, r: WitnessRecordModel) -> Option<WitnessRefModel> {
    if same_day(commit_date, r) {
        Some(witness_ref_of(r))
    } else {
        None
    }
}

/// The references that records give a commit dated `commit_date`, in order.
pub open spec fn matching_refs(commit_date: Seq<char>, rs: Seq<WitnessRecordModel>) -> Seq<WitnessRefModel> {
    filter_map(rs, |r: WitnessRecordModel| witness_match(commit_date, r))
}

/// The records that a list of witness files holds: those that read as JSON.
pub open spec fn witness_records(contents: Seq<Seq<char>>) -> Seq<WitnessRecordModel> {
    filter_map(contents, |c: Seq<char>| witness_json_fields(c))
}

fn first_ten_bytes_equal(a: &str, b: &str) -> (eq: bool)
    requires
        bytes_of(a@).len() >= 10,
        bytes_of(b@).len() >= 10,
    ensures
        eq == (bytes_of(a@).take(10) == bytes_of(b@).take(10)),
{
    let x = a.as_bytes();
    let y = b.as_bytes();
    let mut i: usize = 0;
    while i < 10
        invariant
            i <= 10,
            x@ == bytes_of(a@),
            y@ == bytes_of(b@),
            x@.len() >= 10,
            y@.len() >= 10,
            forall|j: int| 0 <= j < i ==> x@[j] == y@[j],
        decreases 10 - i,
    {
        if x[i] != y[i] {
            assert(bytes_of(a@).take(10)[i as int] != bytes_of(b@).take(10)[i as int]);
            return false;
        }
        i = i + 1;
    }
    assert(bytes_of(a@).take(10) =~= bytes_of(b@).take(10));
    true
}

/// The length of `s` in UTF-8 bytes (`str::len`).
pub fn byte_len(s: &str) -> (n: usize)
    ensures
        n == bytes_of(s@).len(),
{
    s.as_bytes().len()
}

fn take_or_empty(o: Option<String>) -> (s: String)
    ensures
        s@ == or_empty(opt_view(o)),
{
    match o {
        Some(s) => s,
        None => String::new(),
    }
}

/// The reference that a witness record gives a commit dated
/// `commit_date`: one where both were made on the same day, none otherwise.
pub fn witness_ref_for(commit_date: &str, record: WitnessRecord) -> (r: Option<WitnessRef>)
    requires
        !cuts_a_char(commit_date@, record@),
    ensures
        match r {
            Some(w) => witness_match(commit_date@, record@) == Some(w@),
            None => witness_match(commit_date@, record@) is None,
        },
{
    let ghost rv = record@;
    let ts = take_or_empty(record.timestamp);
    assert(ts@ == or_empty(rv.timestamp));
    if byte_len(ts.as_str()) < 10 || byte_len(commit_date) < 10 {
        proof {
            vstd::utf8::encode_utf8_valid_utf8(commit_date@);
            assert(bytes_of(commit_date@).len() >= 10);
        }
        assert(!same_day(commit_date@, rv));
        return None;
    }
    if !first_ten_bytes_equal(commit_date, ts.as_str()) {
        return None;
    }
    let exit_code: i32 = match record.exit_code {
        Some(x) => #[verifier::truncate] (x as i32),
        None => -1,
    };
    Some(WitnessRef {
        id: take_or_empty(record.id),
        command: take_or_empty(record.command),
        exit_code,
        tag: record.tag,
    })
}

/// Some record, looked at next to a commit dated `commit_date`, cuts a
/// string inside a character.
pub open spec fn any_cut(commit_date: Seq<char>, rs: Seq<WitnessRecordModel>) -> bool {
    exists|i: int| 0 <= i < rs.len() && cuts_a_char(commit_date, #[trigger] rs[i])
}

/// The witness recordings made on the day of a commit dated
/// `commit_date`, from the texts of the project's witness files in the
/// order given; files that are no JSON are passed over. `None` where a
/// date or timestamp would have to be cut inside a character, on which
/// the report is not made.
pub fn find_witness_evidence(commit_date: &str, contents: &Vec<String>) -> (r: Option<Vec<WitnessRef>>)
    ensures
        r is None <==> any_cut(commit_date@, witness_records(string_views(contents@))),
        r matches Some(v) ==> witness_views(v@) == matching_refs(
            commit_date@,
            witness_records(string_views(contents@)),
        ),
{
    let ghost sv = string_views(contents@);
    let ghost recs = witness_records(sv);
    let ghost fj = |c: Seq<char>| witness_json_fields(c);
    let ghost fm = |r: WitnessRecordModel| witness_match(commit_date@, r);
    let mut refs: Vec<WitnessRef> = Vec::new();
    let mut k: usize = 0;
    assert(sv.take(0) =~= Seq::<Seq<char>>::empty());
    while k < contents.len()
        invariant
            k <= contents.len(),
            sv == string_views(contents@),
            recs == witness_records(sv),
            fj == (|c: Seq<char>| witness_json_fields(c)),
            fm == (|r: WitnessRecordModel| witness_match(commit_date@, r)),
            !any_cut(commit_date@, filter_map(sv.take(k as int), fj)),
            witness_views(refs@) == filter_map(filter_map(sv.take(k as int), fj), fm),
        decreases contents.len() - k,
    {
        let ghost done = filter_map(sv.take(k as int), fj);
        proof {
            lemma_filter_map_step(sv, k as int, fj);
            lemma_filter_map_prefix(sv, k + 1, fj);
        }
        assert(sv[k as int] == contents@[k as int]@);
        match read_witness_json(contents[k].as_str()) {
            Some(record) => {
                let ghost rv = record@;
                assert(filter_map(sv.take(k + 1), fj) == done.push(rv));
                if record_cuts_a_char(commit_date, &record) {
                    assert(recs == filter_map(sv, fj));
                    assert(filter_map(sv.take(k + 1), fj)[done.len() as int] == rv);
                    assert(recs[done.len() as int] == rv);
                    assert(any_cut(commit_date@, recs));
                    return None;
                }
                proof {
                    lemma_filter_map_push(done, rv, fm);
                    assert forall|i: int| 0 <= i < done.push(rv).len() implies !cuts_a_char(
                        commit_date@,
                        #[trigger] done.push(rv)[i],
                    ) by {
                        if i < done.len() {
                            assert(done.push(rv)[i] == done[i]);
                        }
                    }
                }
                let ghost before = witness_views(refs@);
                match witness_ref_for(commit_date, record) {
                    Some(w) => {
                        refs.push(w);
                        assert(witness_views(refs@) =~= before.push(w@));
                    },
                    None => {},
                }
            },
            None => {},
        }
        k = k + 1;
    }
    assert(sv.take(contents.len() as int) =~= sv);
    Some(refs)
}

fn record_cuts_a_char(commit_date: &str, record: &WitnessRecord) -> (b: bool)
    ensures
        b == cuts_a_char(commit_date@, record@),
{
    if !commit_date.is_char_boundary(10) {
        return true;
    }
    match &record.timestamp {
        Some(ts) => byte_len(ts.as_str()) >= 10 && !ts.as_str().is_char_boundary(10),
        None => false,
    }
}

/// The note that the library adds where a project keeps a latch ledger.
pub open spec fn latch_note() -> Seq<char> {
    "Latch coordination ledger is active in this project."@
}

/// The latch context of a project: a note where its ledger exists.
pub fn find_latch_context(ledger_exists: bool) -> (r: Option<String>)
    ensures
        ledger_exists ==> (r matches Some(s) && s@ == latch_note()),
        !ledger_exists ==> r is None,
{
    if ledger_exists {
        Some(owned("Latch coordination ledger is active in this project."))
    } else {
        None
    }
}

/// The evidence for `commit`: the witness recordings made on its day
/// (from the texts of the witness files), the latch note where the ledger
/// exists, and whether probe snapshots exist. `None` exactly where
/// [`find_witness_evidence`] gives `None`.
pub fn gather_evidence(
    commit: &CommitInfo,
    witness_files: &Vec<String>,
    ledger_exists: bool,
    probe_exists: bool,
) -> (r: Option<CommitEvidence>)
    ensures
        r is None <==> any_cut(commit.date@, witness_records(string_views(witness_files@))),
        r matches Some(e) ==> {
            &&& witness_views(e.witness_runs@) == matching_refs(
                commit.date@,
                witness_records(string_views(witness_files@)),
            )
            &&& opt_view(e.latch_context) == (if ledger_exists { Some(latch_note()) } else { None })
            &&& e.probe_snapshot == probe_exists
        },
{
    match find_witness_evidence(commit.date.as_str(), witness_files) {
        Some(witness_runs) => Some(CommitEvidence {
            witness_runs,
            latch_context: find_latch_context(ledger_exists),
            probe_snapshot: probe_exists,
        }),
        None => None,
    }
}

/// Witness correlation is by date: each reference that records give a
/// commit comes, in order, from a record of the commit's day, and there
/// are no more references than records.
pub proof fn lemma_refs_from_same_day(commit_date: Seq<char>, rs: Seq<WitnessRecordModel>)
    ensures
        matching_refs(commit_date, rs).len() <= rs.len(),
        forall|i: int|
            0 <= i < matching_refs(commit_date, rs).len() ==> exists|j: int|
                0 <= j < rs.len() && same_day(commit_date, #[trigger] rs[j])
                    && #[trigger] matching_refs(commit_date, rs)[i] == witness_ref_of(rs[j]),
    decreases rs.len(),
{
    if rs.len() > 0 {
        let prev = rs.drop_last();
        lemma_refs_from_same_day(commit_date, prev);
        let m = matching_refs(commit_date, rs);
        let mp = matching_refs(commit_date, prev);
        assert forall|i: int| 0 <= i < m.len() implies exists|j: int|
            0 <= j < rs.len() && same_day(commit_date, #[trigger] rs[j]) && #[trigger] m[i] == witness_ref_of(rs[j]) by {
            if i < mp.len() {
                assert(m[i] == mp[i]);
                let j = choose|j: int| 0 <= j < prev.len() && same_day(commit_date, #[trigger] prev[j]) && mp[i] == witness_ref_of(prev[j]);
                assert(rs[j] == prev[j]);
            } else {
                assert(same_day(commit_date, rs[rs.len() - 1]));
            }
        }
    }
}

/// Correlation compares the whole date: where neither date can be cut
/// inside a character, a record gives a commit a reference exactly when
/// its timestamp has at least ten bytes and each of its first ten bytes
/// (year, month and day) equals the commit date's; the reference carries
/// the record's id, command and tag.
pub proof fn lemma_same_day_whole_date(commit_date: Seq<char>, r: WitnessRecordModel)
    requires
        !cuts_a_char(commit_date, r),
    ensures
        witness_match(commit_date, r) is Some <==> (bytes_of(or_empty(r.timestamp)).len() >= 10
            && forall|j: int|
            0 <= j < 10 ==> bytes_of(commit_date)[j] == bytes_of(or_empty(r.timestamp))[j]),
        witness_match(commit_date, r) matches Some(w) ==> w.id == or_empty(r.id) && w.command
            == or_empty(r.command) && w.tag == r.tag,
{
    let cd = bytes_of(commit_date);
    let ts = bytes_of(or_empty(r.timestamp));
    vstd::utf8::encode_utf8_valid_utf8(commit_date);
    assert(cd.len() >= 10);
    if ts.len() >= 10 {
        if forall|j: int| 0 <= j < 10 ==> cd[j] == ts[j] {
            assert(cd.take(10) =~= ts.take(10));
        } else {
            let j = choose|j: int| 0 <= j < 10 && cd[j] != ts[j];
            assert(cd.take(10)[j] != ts.take(10)[j]);
        }
    }
}

} // verus!
