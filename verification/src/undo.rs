//! Undoing the last sorting batch: what is done for each entry, given what
//! is on disk, and the tally of the undo.

use vstd::prelude::*;

use crate::text::text_eq;

verus! {

/// One file of the batch to undo.
pub struct UndoEntry {
    pub source_path: String,
    pub dest_path: String,
    pub operation: String,
}

/// What became of one file when undoing.
pub struct UndoEntryResult {
    pub source_path: String,
    pub dest_path: String,
    pub result: String,
    pub error_message: String,
}

/// The outcome of an undo.
pub struct UndoResult {
    pub processed: usize,
    pub failed: usize,
    pub entries: Vec<UndoEntryResult>,
}

/// What to do to undo one file.
pub enum UndoStep {
    /// Move the file back from its destination to its source (creating the
    /// source's folder first).
    Restore,
    /// Remove the copy at the destination.
    RemoveCopy,
    /// Nothing is left to undo.
    Nothing,
    /// The file cannot be undone, for this reason.
    Refuse(String),
}

/// How to undo one file with `operation`, given whether its destination and
/// its source exist: a move is undone by moving the file back when it is at
/// its destination and its source is free; a copy by removing the copy when
/// it is there.
pub fn undo_step(operation: &str, dest_exists: bool, source_exists: bool) -> (r: UndoStep)
    ensures
        operation@ == "move"@ && !dest_exists ==> (r matches UndoStep::Refuse(m) && m@ == "Destination missing"@),
        operation@ == "move"@ && dest_exists && source_exists ==> (r matches UndoStep::Refuse(m) && m@
            == "Source already exists"@),
        operation@ == "move"@ && dest_exists && !source_exists ==> r is Restore,
        operation@ == "copy"@ && dest_exists ==> r is RemoveCopy,
        operation@ == "copy"@ && !dest_exists ==> r is Nothing,
        operation@ != "move"@ && operation@ != "copy"@ ==> (r matches UndoStep::Refuse(m) && m@
            == "Unknown operation"@),
{
    proof {
        reveal_strlit("copy");
        reveal_strlit("move");
        assert("copy"@[0] != "move"@[0]);
    }
    if text_eq(operation, "move") {
        if !dest_exists {
            UndoStep::Refuse("Destination missing".to_owned())
        } else if source_exists {
            UndoStep::Refuse("Source already exists".to_owned())
        } else {
            UndoStep::Restore
        }
    } else if text_eq(operation, "copy") {
        if dest_exists {
            UndoStep::RemoveCopy
        } else {
            UndoStep::Nothing
        }
    } else {
        UndoStep::Refuse("Unknown operation".to_owned())
    }
}

/// How many results of `rs` are failures.
pub open spec fn count_failed(rs: Seq<UndoEntryResult>) -> nat
    decreases rs.len(),
{
    if rs.len() == 0 {
        0
    } else {
        count_failed(rs.drop_last()) + if rs.last().result@ == "failed"@ {
            1nat
        } else {
            0nat
        }
    }
}

proof fn lemma_count_failed_bound(rs: Seq<UndoEntryResult>)
    ensures
        count_failed(rs) <= rs.len(),
    decreases rs.len(),
{
    if rs.len() > 0 {
        lemma_count_failed_bound(rs.drop_last());
    }
}

/// An undo in which every file was undone counts no failure.
pub proof fn lemma_all_undone_none_failed(rs: Seq<UndoEntryResult>)
    requires
        forall|i: int| 0 <= i < rs.len() ==> (#[trigger] rs[i]).result@ == "ok"@,
    ensures
        count_failed(rs) == 0,
    decreases rs.len(),
{
    if rs.len() > 0 {
        reveal_strlit("ok");
        reveal_strlit("failed");
        assert("ok"@.len() != "failed"@.len());
        assert(rs.last() == rs[rs.len() - 1]);
        assert forall|i: int| 0 <= i < rs.drop_last().len() implies (#[trigger] rs.drop_last()[i]).result@ == "ok"@ by {
            assert(rs.drop_last()[i] == rs[i]);
        }
        lemma_all_undone_none_failed(rs.drop_last());
    }
}

/// `r` records the outcome of undoing `e`: `ok`, or `failed` with the
/// message.
pub open spec fn records_outcome(r: UndoEntryResult, e: UndoEntry, outcome: Result<(), String>) -> bool {
    &&& r.source_path == e.source_path
    &&& r.dest_path == e.dest_path
    &&& match outcome {
        Ok(_) => r.result@ == "ok"@ && r.error_message@ == ""@,
        Err(m) => r.result@ == "failed"@ && r.error_message == m,
    }
}

/// The results recorded so far in an undo, with their counts.
pub struct UndoTally {
    processed: usize,
    failed: usize,
    entries: Vec<UndoEntryResult>,
}

impl UndoTally {
    /// Every file processed has one result, and the failed count is the
    /// number of failed results.
    #[verifier::type_invariant]
    spec fn counts_agree(&self) -> bool {
        &&& self.processed == self.entries@.len()
        &&& self.failed == count_failed(self.entries@)
    }

    /// The results recorded so far, in order.
    pub closed spec fn results(&self) -> Seq<UndoEntryResult> {
        self.entries@
    }

    /// An empty tally.
    pub fn new() -> (r: UndoTally)
        ensures
            r.results() == Seq::<UndoEntryResult>::empty(),
    {
        UndoTally { processed: 0, failed: 0, entries: Vec::new() }
    }

    /// Records the outcome of undoing one more file.
    pub fn record(self, entry: UndoEntry, outcome: Result<(), String>) -> (r: UndoTally)
        requires
            self.results().len() < usize::MAX,
        ensures
            r.results().len() == self.results().len() + 1,
            r.results().drop_last() == self.results(),
            records_outcome(r.results().last(), entry, outcome),
    {
        proof {
            use_type_invariant(&self);
            lemma_count_failed_bound(self.entries@);
        }
        let ghost before = self.entries@;
        let (result, message, failed_now) = match outcome {
            Ok(_) => ("ok".to_owned(), "".to_owned(), false),
            Err(m) => ("failed".to_owned(), m, true),
        };
        let UndoTally { processed, failed, mut entries } = self;
        let UndoEntry { source_path, dest_path, operation: _ } = entry;
        entries.push(UndoEntryResult { source_path, dest_path, result, error_message: message });
        assert(entries@.drop_last() =~= before);
        let failed = if failed_now { failed + 1 } else { failed };
        proof {
            reveal_strlit("ok");
            reveal_strlit("failed");
            assert("ok"@ != "failed"@) by {
                assert("ok"@.len() != "failed"@.len());
            }
        }
        UndoTally { processed: processed + 1, failed, entries }
    }

    /// Closes the undo: its counts and its results.
    pub fn finish(self) -> (r: UndoResult)
        ensures
            r.entries@ == self.results(),
            r.processed == self.results().len(),
            r.failed == count_failed(self.results()),
    {
        proof { use_type_invariant(&self); }
        let UndoTally { processed, failed, entries } = self;
        UndoResult { processed, failed, entries }
    }
}

} // verus!
