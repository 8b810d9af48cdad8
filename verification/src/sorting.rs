//! Sorting a batch of dropped files into a client folder: which files take
//! part, where each one goes, what is recorded for it, and the running
//! tally of the batch.

use vstd::prelude::*;

use crate::clock::now_for_stamps;
use crate::env::{exdev_code, is_rfc3339_stamp, local_rfc3339};
use crate::modes::{
    destination_for_mode, detected_mode, auto_extension, is_allowed_for_mode, lowered_extension, mode_accepts,
    mode_accepts_extension, mode_destination, mode_for_extension, name_stem, split_file_name,
};
use crate::text::{to_lowercase, unicode_lowercase};
use crate::text::text_eq;

verus! {

/// A file that was dropped (directly or inside a dropped folder).
pub struct SourceFile {
    /// The file's full path, as text (lossily converted where it is not
    /// valid Unicode).
    pub path: String,
    /// The path exactly as the platform stores it, as bytes: two files are
    /// the same file when their keys are equal.
    pub key: Vec<u8>,
    /// The file's name, the last component of its path.
    pub name: String,
    /// Whether the name is valid Unicode; when it is not, `name` holds its
    /// lossy conversion (which keeps every `.` in place).
    pub name_is_text: bool,
    /// Whether the name's extension, if it has one, is valid Unicode.
    pub extension_is_text: bool,
    /// Whether the name's stem is valid Unicode.
    pub stem_is_text: bool,
}

/// The lowercased extension by which a mode accepts a file: empty when the
/// file has none or it is not valid Unicode.
pub open spec fn source_extension(f: SourceFile) -> Seq<char> {
    if f.extension_is_text {
        lowered_extension(f.name@)
    } else {
        Seq::empty()
    }
}

/// The lowercased extension from which automatic sorting picks a mode (the
/// lowercase of the empty string when there is none or it is not valid
/// Unicode).
pub open spec fn source_auto_extension(f: SourceFile) -> Seq<char> {
    if f.extension_is_text {
        auto_extension(f.name@)
    } else {
        unicode_lowercase(Seq::empty())
    }
}

/// The stem that automatic sorting looks at: empty when it is not valid
/// Unicode.
pub open spec fn source_stem(f: SourceFile) -> Seq<char> {
    if f.stem_is_text {
        name_stem(f.name@)
    } else {
        Seq::empty()
    }
}

/// Whether `mode` accepts the file.
pub fn accepts_source(mode: &str, f: &SourceFile) -> (r: bool)
    ensures
        r == mode_accepts(mode@, source_extension(*f)),
{
    if f.extension_is_text {
        is_allowed_for_mode(mode, f.name.as_str())
    } else {
        proof {
            assert(""@ =~= Seq::<char>::empty()) by { reveal_strlit(""); }
        }
        mode_accepts_extension(mode, "")
    }
}

/// The mode that automatic sorting gives the file; that mode accepts the
/// file.
pub fn detect_mode_for_source(f: &SourceFile) -> (r: Option<&'static str>)
    ensures
        crate::modes::opt_text(r) == detected_mode(source_auto_extension(*f), source_stem(*f)),
        r matches Some(m) ==> mode_accepts(m@, source_extension(*f)),
{
    let (stem, ext) = split_file_name(f.name.as_str());
    proof {
        assert(""@ =~= Seq::<char>::empty()) by { reveal_strlit(""); }
    }
    let lowered = match ext {
        Some(e) => if f.extension_is_text {
            to_lowercase(e.as_str())
        } else {
            to_lowercase("")
        },
        None => to_lowercase(""),
    };
    let stem_seen = if f.stem_is_text { stem.as_str() } else { "" };
    proof {
        crate::modes::lemma_detected_mode_accepts(lowered@, stem_seen@);
    }
    mode_for_extension(lowered.as_str(), stem_seen)
}

/// What is recorded of one file in a sorting batch (a row of the CSV log).
pub struct SortEntry {
    pub timestamp: String,
    pub username: String,
    pub mode: String,
    pub client: String,
    pub operation: String,
    pub source_path: String,
    pub dest_path: String,
    pub result: String,
    pub error_message: String,
}

/// The outcome of a sorting batch.
pub struct SortResult {
    pub processed: usize,
    pub failed: usize,
    pub skipped: usize,
    pub entries: Vec<SortEntry>,
    pub log_path: String,
}

// ---------------------------------------------------------------------------
// Which files take part
// ---------------------------------------------------------------------------

/// The files that `mode` accepts, in order; in automatic mode, all of them.
pub open spec fn accepted_files(mode: Seq<char>, files: Seq<SourceFile>) -> Seq<SourceFile>
    decreases files.len(),
{
    if files.len() == 0 {
        files
    } else if mode == "AUTO"@ || mode_accepts(mode, source_extension(files.last())) {
        accepted_files(mode, files.drop_last()).push(files.last())
    } else {
        accepted_files(mode, files.drop_last())
    }
}

/// Whether some file in `files` has the key `key`.
pub open spec fn has_key(files: Seq<SourceFile>, key: Seq<u8>) -> bool {
    exists|i: int| 0 <= i < files.len() && (#[trigger] files[i]).key@ == key
}

/// `files` without the files whose path (by its key) occurred earlier.
pub open spec fn first_by_key(files: Seq<SourceFile>) -> Seq<SourceFile>
    decreases files.len(),
{
    if files.len() == 0 {
        files
    } else if has_key(files.drop_last(), files.last().key@) {
        first_by_key(files.drop_last())
    } else {
        first_by_key(files.drop_last()).push(files.last())
    }
}

/// The files of a batch: those the mode accepts, each file once.
pub open spec fn batch_files(mode: Seq<char>, files: Seq<SourceFile>) -> Seq<SourceFile> {
    first_by_key(accepted_files(mode, files))
}

proof fn lemma_first_by_key_keys(files: Seq<SourceFile>, key: Seq<u8>)
    ensures
        has_key(first_by_key(files), key) == has_key(files, key),
    decreases files.len(),
{
    if files.len() > 0 {
        let rest = files.drop_last();
        lemma_first_by_key_keys(rest, key);
        let r = first_by_key(files);
        if has_key(files, key) {
            let i = choose|i: int| 0 <= i < files.len() && (#[trigger] files[i]).key@ == key;
            if i < rest.len() {
                assert(rest[i] == files[i]);
                let j = choose|j: int| 0 <= j < first_by_key(rest).len() && (#[trigger] first_by_key(rest)[j]).key@ == key;
                assert(r[j] == first_by_key(rest)[j]);
            } else if !has_key(rest, files.last().key@) {
                assert(r[r.len() - 1] == files.last());
            } else {
                assert(has_key(rest, key));
            }
        }
        if has_key(r, key) {
            let j = choose|j: int| 0 <= j < r.len() && (#[trigger] r[j]).key@ == key;
            if j < first_by_key(rest).len() {
                assert(first_by_key(rest)[j] == r[j]);
                let k = choose|k: int| 0 <= k < rest.len() && (#[trigger] rest[k]).key@ == key;
                assert(files[k] == rest[k]);
            } else {
                assert(files[files.len() - 1].key@ == key);
            }
        }
    }
}

/// No key occurs twice among the files that `first_by_key` keeps.
pub proof fn lemma_first_by_key_unique(files: Seq<SourceFile>)
    ensures
        forall|i: int, j: int|
            0 <= i < j < first_by_key(files).len() ==> (#[trigger] first_by_key(files)[i]).key@
                != (#[trigger] first_by_key(files)[j]).key@,
    decreases files.len(),
{
    if files.len() > 0 {
        let rest = files.drop_last();
        lemma_first_by_key_unique(rest);
        lemma_first_by_key_keys(rest, files.last().key@);
        let r = first_by_key(files);
        let p = first_by_key(rest);
        if !has_key(rest, files.last().key@) {
            assert forall|i: int, j: int| 0 <= i < j < r.len() implies (#[trigger] r[i]).key@ != (#[trigger] r[j]).key@ by {
                if j < p.len() {
                    assert(r[i] == p[i] && r[j] == p[j]);
                } else {
                    assert(r[i] == p[i]);
                    if p[i].key@ == files.last().key@ {
                        assert(has_key(p, files.last().key@));
                    }
                }
            }
        }
    }
}

/// Whether two byte strings are equal.
fn same_bytes(a: &Vec<u8>, b: &Vec<u8>) -> (r: bool)
    ensures
        r == (a@ == b@),
{
    if a.len() != b.len() {
        return false;
    }
    let mut i: usize = 0;
    while i < a.len()
        invariant
            i <= a.len(),
            a.len() == b.len(),
            forall|k: int| 0 <= k < i ==> a@[k] == b@[k],
        decreases a.len() - i,
    {
        if a[i] != b[i] {
            return false;
        }
        i = i + 1;
    }
    assert(a@ =~= b@);
    true
}

/// The files of a sorting batch: those that `mode` accepts (all of them in
/// `AUTO` mode), each file (by its key) kept once, in order. It is an error
/// when no file is left.
pub fn select_sources(mode: &str, files: Vec<SourceFile>) -> (r: Result<Vec<SourceFile>, String>)
    ensures
        match r {
            Ok(v) => v@ == batch_files(mode@, files@) && v@.len() > 0 && forall|i: int, j: int|
                0 <= i < j < v@.len() ==> (#[trigger] v@[i]).key@ != (#[trigger] v@[j]).key@,
            Err(e) => batch_files(mode@, files@).len() == 0 && e@ == "No files matched the selected mode."@,
        },
{
    let auto = text_eq(mode, "AUTO");
    let mut kept: Vec<SourceFile> = Vec::new();
    let ghost all = files@;
    for f in it: files
        invariant
            it.seq() == all,
            auto == (mode@ == "AUTO"@),
            kept@ == first_by_key(accepted_files(mode@, all.take(it.index()))),
    {
        let ghost i = it.index();
        let ghost prefix = all.take(i);
        let ghost next = all.take(i + 1);
        assert(f == all[i]);
        assert(next.drop_last() =~= prefix);
        assert(next.last() == f);
        let accepted = auto || accepts_source(mode, &f);
        if accepted {
            let ghost acc = accepted_files(mode@, prefix);
            assert(accepted_files(mode@, next) == acc.push(f));
            assert(acc.push(f).drop_last() =~= acc);
            let mut seen = false;
            let mut j: usize = 0;
            while j < kept.len()
                invariant
                    j <= kept.len(),
                    seen == exists|k: int| 0 <= k < j && (#[trigger] kept@[k]).key@ == f.key@,
                decreases kept.len() - j,
            {
                if same_bytes(&kept[j].key, &f.key) {
                    seen = true;
                }
                j = j + 1;
            }
            proof {
                lemma_first_by_key_keys(acc, f.key@);
            }
            if !seen {
                kept.push(f);
            }
        } else {
            assert(accepted_files(mode@, next) == accepted_files(mode@, prefix));
        }
    }
    assert(all.take(all.len() as int) =~= all);
    proof {
        lemma_first_by_key_unique(accepted_files(mode@, all));
    }
    if kept.len() == 0 {
        Err("No files matched the selected mode.".to_owned())
    } else {
        Ok(kept)
    }
}

// ---------------------------------------------------------------------------
// Where each file goes
// ---------------------------------------------------------------------------

/// The mode a file is sorted in: the detected mode in `AUTO` mode,
/// otherwise the chosen mode.
pub open spec fn resolved_mode(mode: Seq<char>, f: SourceFile) -> Option<Seq<char>> {
    if mode == "AUTO"@ {
        detected_mode(source_auto_extension(f), source_stem(f))
    } else {
        Some(mode)
    }
}

/// In an automatic batch every file that gets a mode gets one with a
/// destination: such a batch never stops on an unknown mode.
pub proof fn lemma_auto_mode_has_destination(f: SourceFile)
    ensures
        resolved_mode("AUTO"@, f) matches Some(m) ==> mode_destination(m) is Some,
{
    crate::modes::lemma_detected_modes_have_destinations(source_auto_extension(f), source_stem(f));
}

/// What becomes of one file of a batch before it is placed.
pub enum FilePlan {
    /// No mode applies to the file: it is skipped.
    Unsupported,
    /// The file's mode has no destination: the whole batch stops.
    UnknownMode,
    /// The file goes into `destination` (relative to the client folder),
    /// sorted in `mode`.
    Place { mode: String, destination: &'static str },
}

/// The plan for one file of a batch sorted in `mode`.
pub fn plan_file(mode: &str, file: &SourceFile) -> (r: FilePlan)
    ensures
        match resolved_mode(mode@, *file) {
            None => r is Unsupported,
            Some(m) => match mode_destination(m) {
                None => r is UnknownMode,
                Some(d) => r matches FilePlan::Place { mode: rm, destination: rd } && rm@ == m && rd@ == d,
            },
        },
{
    let resolved: String = if text_eq(mode, "AUTO") {
        match detect_mode_for_source(file) {
            Some(m) => m.to_owned(),
            None => {
                return FilePlan::Unsupported;
            },
        }
    } else {
        mode.to_owned()
    };
    match destination_for_mode(resolved.as_str()) {
        Some(d) => FilePlan::Place { mode: resolved, destination: d },
        None => FilePlan::UnknownMode,
    }
}

// ---------------------------------------------------------------------------
// What is recorded
// ---------------------------------------------------------------------------

/// The fixed parts of every entry of a batch.
pub struct BatchContext {
    pub username: String,
    pub mode: String,
    pub client: String,
    pub operation: String,
}

/// Starts the context of a batch for `client`, sorted in `mode` with
/// `operation`, recording the logged-in user.
pub fn batch_context(mode: &str, client: &str, operation: &str) -> (r: BatchContext)
    ensures
        r.mode@ == mode@,
        r.client@ == client@,
        r.operation@ == operation@,
{
    BatchContext {
        username: crate::env::username(),
        mode: mode.to_owned(),
        client: client.to_owned(),
        operation: operation.to_owned(),
    }
}

/// How the operation on a placed file ended.
pub enum Outcome {
    /// The file was copied or moved.
    Done,
    /// Nothing was done: this is a dry run.
    DryRun,
    /// The operation failed with this message.
    Failed(String),
}

/// The result column of an entry for an outcome.
pub open spec fn outcome_result(o: Outcome) -> Seq<char> {
    match o {
        Outcome::Done => "ok"@,
        Outcome::DryRun => "skipped"@,
        Outcome::Failed(_) => "failed"@,
    }
}

/// The message column of an entry for an outcome.
pub open spec fn outcome_message(o: Outcome) -> Seq<char> {
    match o {
        Outcome::Done => ""@,
        Outcome::DryRun => "Dry run"@,
        Outcome::Failed(m) => m@,
    }
}

/// The entry for a file that no mode applies to: skipped, with no
/// destination, under the batch's own mode.
pub fn unsupported_entry(ctx: &BatchContext, source_path: &str) -> (e: SortEntry)
    ensures
        e.username == ctx.username,
        e.mode@ == ctx.mode@,
        e.client@ == ctx.client@,
        e.operation@ == ctx.operation@,
        e.source_path@ == source_path@,
        e.dest_path@ == ""@,
        e.result@ == "skipped"@,
        e.error_message@ == "Unsupported file type"@,
        is_rfc3339_stamp(e.timestamp@),
{
    SortEntry {
        timestamp: entry_timestamp(),
        username: ctx.username.clone(),
        mode: ctx.mode.clone(),
        client: ctx.client.clone(),
        operation: ctx.operation.clone(),
        source_path: source_path.to_owned(),
        dest_path: "".to_owned(),
        result: "skipped".to_owned(),
        error_message: "Unsupported file type".to_owned(),
    }
}

/// The entry for a file whose name is not valid Unicode: failed, with no
/// destination, under its resolved mode.
pub fn invalid_name_entry(ctx: &BatchContext, mode: &str, source_path: &str) -> (e: SortEntry)
    ensures
        e.username == ctx.username,
        e.mode@ == mode@,
        e.client@ == ctx.client@,
        e.operation@ == ctx.operation@,
        e.source_path@ == source_path@,
        e.dest_path@ == ""@,
        e.result@ == "failed"@,
        e.error_message@ == "Invalid file name"@,
        is_rfc3339_stamp(e.timestamp@),
{
    SortEntry {
        timestamp: entry_timestamp(),
        username: ctx.username.clone(),
        mode: mode.to_owned(),
        client: ctx.client.clone(),
        operation: ctx.operation.clone(),
        source_path: source_path.to_owned(),
        dest_path: "".to_owned(),
        result: "failed".to_owned(),
        error_message: "Invalid file name".to_owned(),
    }
}

/// The entry for a placed file, stamped at `timestamp`: its result and
/// message follow from the outcome.
pub fn placed_entry(
    ctx: &BatchContext,
    timestamp: String,
    mode: &str,
    source_path: &str,
    dest_path: &str,
    outcome: Outcome,
) -> (e: SortEntry)
    ensures
        e.timestamp == timestamp,
        e.username == ctx.username,
        e.mode@ == mode@,
        e.client@ == ctx.client@,
        e.operation@ == ctx.operation@,
        e.source_path@ == source_path@,
        e.dest_path@ == dest_path@,
        e.result@ == outcome_result(outcome),
        e.error_message@ == outcome_message(outcome),
{
    let (result, message) = match outcome {
        Outcome::Done => ("ok".to_owned(), "".to_owned()),
        Outcome::DryRun => ("skipped".to_owned(), "Dry run".to_owned()),
        Outcome::Failed(m) => ("failed".to_owned(), m),
    };
    SortEntry {
        timestamp,
        username: ctx.username.clone(),
        mode: mode.to_owned(),
        client: ctx.client.clone(),
        operation: ctx.operation.clone(),
        source_path: source_path.to_owned(),
        dest_path: dest_path.to_owned(),
        result,
        error_message: message,
    }
}

/// The time stamp of an entry: the current local time in RFC 3339 form
/// (`YYYY-MM-DDTHH:MM:SS`, a fraction of a second when there is one, and
/// the offset). Which time it shows depends on the clock and the time zone;
/// a clock before 1970 stamps the Unix epoch, and one past the last second
/// chrono can represent (in the year 262142) stamps that second.
pub fn entry_timestamp() -> (r: String)
    ensures
        is_rfc3339_stamp(r@),
{
    let (secs, nanos) = now_for_stamps();
    local_rfc3339(secs, nanos)
}

// ---------------------------------------------------------------------------
// Operations
// ---------------------------------------------------------------------------

/// What is done with a placed file.
pub enum Operation {
    /// Nothing: the batch is a dry run.
    DryRun,
    /// The file is copied.
    Copy,
    /// The file is moved.
    Move,
    /// The operation is not known: the file fails.
    Unknown,
}

/// The operation done with each placed file: nothing in a dry run,
/// otherwise `copy` or `move`.
pub fn operation_for(operation: &str, dry_run: bool) -> (r: Operation)
    ensures
        dry_run ==> r is DryRun,
        !dry_run && operation@ == "copy"@ ==> r is Copy,
        !dry_run && operation@ == "move"@ ==> r is Move,
        !dry_run && operation@ != "copy"@ && operation@ != "move"@ ==> r is Unknown,
{
    proof {
        reveal_strlit("copy");
        reveal_strlit("move");
        assert("copy"@[0] != "move"@[0]);
    }
    if dry_run {
        Operation::DryRun
    } else if text_eq(operation, "copy") {
        Operation::Copy
    } else if text_eq(operation, "move") {
        Operation::Move
    } else {
        Operation::Unknown
    }
}

/// The message recorded for a file whose operation is not known.
pub fn unknown_operation_outcome() -> (r: Outcome)
    ensures
        r matches Outcome::Failed(m) && m@ == "Unknown operation"@,
{
    Outcome::Failed("Unknown operation".to_owned())
}

/// Whether an OS error number means that source and destination lie on
/// different devices: the platform's cross-device code, or 17 (the Windows
/// "not same device" error).
pub fn is_cross_device(raw_os_error: Option<i32>, exdev: i32) -> (r: bool)
    ensures
        r == (raw_os_error == Some(exdev) || raw_os_error == Some(17i32)),
{
    match raw_os_error {
        Some(code) => code == exdev || code == 17,
        None => false,
    }
}

/// Whether a failed rename should be redone as a copy followed by removing
/// the source: the error says the two paths lie on different devices (the
/// platform's cross-device code, or 17). Which code the platform uses is
/// not known here, so only the cases that do not depend on it are stated.
pub fn falls_back_to_copy(raw_os_error: Option<i32>) -> (r: bool)
    ensures
        raw_os_error is None ==> !r,
        raw_os_error == Some(17i32) ==> r,
        r ==> raw_os_error is Some,
{
    is_cross_device(raw_os_error, exdev_code())
}

/// How many times removing the source of a move by copying is attempted.
pub open spec fn removal_attempt_limit() -> nat {
    3
}

/// What to do after a failed attempt to remove a file.
pub struct RetryAction {
    /// Clear the file's read-only flag first (permission was denied).
    pub clear_read_only: bool,
    /// Try again (after a short pause); otherwise give up with the last error.
    pub try_again: bool,
}

/// The failed attempts so far to remove one file.
pub struct RemovalAttempts {
    failures: u32,
}

impl RemovalAttempts {
    /// How many attempts have failed.
    pub closed spec fn failures(&self) -> nat {
        self.failures as nat
    }

    /// No attempt made yet.
    pub fn new() -> (r: RemovalAttempts)
        ensures
            r.failures() == 0,
    {
        RemovalAttempts { failures: 0 }
    }

    /// Records a failed attempt: the read-only flag is cleared when
    /// permission was denied, and the removal is tried again until the
    /// attempt limit is reached.
    pub fn after_failure(&mut self, permission_denied: bool) -> (r: RetryAction)
        requires
            old(self).failures() < removal_attempt_limit(),
        ensures
            final(self).failures() == old(self).failures() + 1,
            r.clear_read_only == permission_denied,
            r.try_again == (final(self).failures() < removal_attempt_limit()),
    {
        self.failures = self.failures + 1;
        RetryAction { clear_read_only: permission_denied, try_again: self.failures < 3 }
    }
}

/// What became of the copy when a move by copying could not remove its source.
pub enum Rollback {
    /// The copy was removed again.
    RolledBack,
    /// Removing the copy failed with this message.
    Failed(String),
    /// The copy was already gone.
    AlreadyMissing,
}

/// The sentence that reports a rollback.
pub open spec fn rollback_text(r: Rollback) -> Seq<char> {
    match r {
        Rollback::RolledBack => "Copied file was rolled back."@,
        Rollback::Failed(e) => "Rollback failed ("@ + e@ + ")."@,
        Rollback::AlreadyMissing => "Copied file was already missing."@,
    }
}

/// The message of a move by copying whose source could not be removed: the
/// removal error, a hint when permission was denied, and what became of the
/// copy.
pub open spec fn move_cleanup_text(remove_error: Seq<char>, permission_denied: bool, rollback: Rollback) -> Seq<char> {
    "Move failed: could not remove source ("@ + remove_error + ")."@ + (if permission_denied {
        " Source file is likely open in another app."@
    } else {
        ""@
    }) + " "@ + rollback_text(rollback)
}

/// The outcome of a move by copying whose source could not be removed.
pub fn move_cleanup_outcome(remove_error: &str, permission_denied: bool, rollback: Rollback) -> (r: Outcome)
    ensures
        r matches Outcome::Failed(m) && m@ == move_cleanup_text(remove_error@, permission_denied, rollback),
{
    let ghost rb = rollback;
    let rollback_msg = match rollback {
        Rollback::RolledBack => "Copied file was rolled back.".to_owned(),
        Rollback::Failed(e) => "Rollback failed (".to_owned().concat(e.as_str()).concat(")."),
        Rollback::AlreadyMissing => "Copied file was already missing.".to_owned(),
    };
    let hint = if permission_denied {
        " Source file is likely open in another app."
    } else {
        ""
    };
    let msg = "Move failed: could not remove source (".to_owned().concat(remove_error).concat(").").concat(
        hint,
    ).concat(" ").concat(rollback_msg.as_str());
    Outcome::Failed(msg)
}

// ---------------------------------------------------------------------------
// The tally of a batch
// ---------------------------------------------------------------------------

/// How many entries of `es` have the result `r`.
pub open spec fn count_result(es: Seq<SortEntry>, r: Seq<char>) -> nat
    decreases es.len(),
{
    if es.len() == 0 {
        0
    } else {
        count_result(es.drop_last(), r) + if es.last().result@ == r {
            1nat
        } else {
            0nat
        }
    }
}

proof fn lemma_count_result_bound(es: Seq<SortEntry>, r: Seq<char>)
    ensures
        count_result(es, r) <= es.len(),
    decreases es.len(),
{
    if es.len() > 0 {
        lemma_count_result_bound(es.drop_last(), r);
    }
}

/// The entries recorded so far in a batch, with their counts.
pub struct SortTally {
    processed: usize,
    failed: usize,
    skipped: usize,
    entries: Vec<SortEntry>,
}

impl SortTally {
    /// Every file processed has one entry, and the failed and skipped counts
    /// are the numbers of entries with those results.
    #[verifier::type_invariant]
    spec fn counts_agree(&self) -> bool {
        &&& self.processed == self.entries@.len()
        &&& self.failed == count_result(self.entries@, "failed"@)
        &&& self.skipped == count_result(self.entries@, "skipped"@)
    }

    /// The entries recorded so far, in order.
    pub closed spec fn entries(&self) -> Seq<SortEntry> {
        self.entries@
    }

    /// An empty tally.
    pub fn new() -> (r: SortTally)
        ensures
            r.entries() == Seq::<SortEntry>::empty(),
    {
        SortTally { processed: 0, failed: 0, skipped: 0, entries: Vec::new() }
    }

    /// Records the entry of one more file.
    pub fn record(self, entry: SortEntry) -> (r: SortTally)
        requires
            self.entries().len() < usize::MAX,
        ensures
            r.entries() == self.entries().push(entry),
    {
        proof {
            use_type_invariant(&self);
            lemma_count_result_bound(self.entries@, "failed"@);
            lemma_count_result_bound(self.entries@, "skipped"@);
        }
        let ghost before = self.entries@;
        let is_failed = text_eq(entry.result.as_str(), "failed");
        let is_skipped = text_eq(entry.result.as_str(), "skipped");
        let SortTally { processed, failed, skipped, mut entries } = self;
        let failed = if is_failed { failed + 1 } else { failed };
        let skipped = if is_skipped { skipped + 1 } else { skipped };
        entries.push(entry);
        assert(entries@.drop_last() =~= before);
        SortTally { processed: processed + 1, failed, skipped, entries }
    }

    /// The number of files processed so far.
    pub fn processed(&self) -> (r: usize)
        ensures
            r == self.entries().len(),
    {
        proof { use_type_invariant(self); }
        self.processed
    }

    /// Closes the batch: its counts, its entries and the path of its log.
    pub fn finish(self, log_path: String) -> (r: SortResult)
        ensures
            r.entries@ == self.entries(),
            r.processed == self.entries().len(),
            r.failed == count_result(self.entries(), "failed"@),
            r.skipped == count_result(self.entries(), "skipped"@),
            r.log_path == log_path,
    {
        proof { use_type_invariant(&self); }
        let SortTally { processed, failed, skipped, entries } = self;
        SortResult { processed, failed, skipped, entries, log_path }
    }
}

} // verus!
