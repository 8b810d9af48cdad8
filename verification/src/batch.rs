//! A sorting batch in progress. The batch decides, file by file, what is
//! recorded and where a file goes; the caller does the work on disk in
//! between (creating the destination folder, looking for names that are
//! taken, copying or moving) and reports back.

use vstd::prelude::*;

use crate::env::is_rfc3339_stamp;
use crate::modes::mode_destination;
use crate::naming::{candidate_name, given_out, reserved_after, unique_destination_path, NameSearch, ReservedNames};
use crate::sorting::{
    invalid_name_entry, outcome_message, outcome_result, placed_entry, plan_file, resolved_mode, unsupported_entry,
    BatchContext, FilePlan, Outcome, SortEntry, SortResult, SortTally, SourceFile, count_result,
};

verus! {

/// The entry recorded for a file that no mode applies to.
pub open spec fn is_unsupported_entry(e: SortEntry, ctx: BatchContext, source_path: Seq<char>) -> bool {
    &&& e.username == ctx.username
    &&& e.mode@ == ctx.mode@
    &&& e.client@ == ctx.client@
    &&& e.operation@ == ctx.operation@
    &&& e.source_path@ == source_path
    &&& e.dest_path@ == ""@
    &&& e.result@ == "skipped"@
    &&& e.error_message@ == "Unsupported file type"@
    &&& is_rfc3339_stamp(e.timestamp@)
}

/// The entry recorded for a file whose name is not valid Unicode.
pub open spec fn is_invalid_name_entry(e: SortEntry, ctx: BatchContext, mode: Seq<char>, source_path: Seq<char>) -> bool {
    &&& e.username == ctx.username
    &&& e.mode@ == mode
    &&& e.client@ == ctx.client@
    &&& e.operation@ == ctx.operation@
    &&& e.source_path@ == source_path
    &&& e.dest_path@ == ""@
    &&& e.result@ == "failed"@
    &&& e.error_message@ == "Invalid file name"@
    &&& is_rfc3339_stamp(e.timestamp@)
}

/// The entry recorded for a placed file.
pub open spec fn is_placed_entry(
    e: SortEntry,
    ctx: BatchContext,
    timestamp: String,
    mode: Seq<char>,
    source_path: Seq<char>,
    dest_path: Seq<char>,
    outcome: Outcome,
) -> bool {
    &&& e.timestamp == timestamp
    &&& e.username == ctx.username
    &&& e.mode@ == mode
    &&& e.client@ == ctx.client@
    &&& e.operation@ == ctx.operation@
    &&& e.source_path@ == source_path
    &&& e.dest_path@ == dest_path
    &&& e.result@ == outcome_result(outcome)
    &&& e.error_message@ == outcome_message(outcome)
}

/// The entries of a batch follow its files: there are no more entries than
/// files, and the entry at each position is for the file at that position.
pub open spec fn entries_follow(entries: Seq<SortEntry>, sources: Seq<SourceFile>) -> bool {
    &&& entries.len() <= sources.len()
    &&& forall|k: int| 0 <= k < entries.len() ==> (#[trigger] entries[k]).source_path@ == sources[k].path@
}

/// What the batch asks for next.
pub enum NextFile {
    /// Every file has its entry: the batch is done.
    Finished,
    /// The next file was recorded without being placed (no mode applies).
    Recorded,
    /// The batch stops with this message: the file's mode has no destination.
    Abort(String),
    /// The next file goes into `destination` (relative to the client
    /// folder): make sure that folder exists, then check its name.
    Place { destination: &'static str },
}

/// A sorting batch: its context, its files, the entries recorded so far,
/// the names given out, and the mode of the file being placed, if any.
pub struct SortBatch {
    ctx: BatchContext,
    sources: Vec<SourceFile>,
    tally: SortTally,
    reserved: ReservedNames,
    pending: Option<String>,
}

impl SortBatch {
    /// Entries are recorded for the files in order, one each, and a file is
    /// only being placed while some file has no entry yet.
    #[verifier::type_invariant]
    spec fn in_order(&self) -> bool {
        &&& entries_follow(self.tally.entries(), self.sources@)
        &&& self.pending is Some ==> self.tally.entries().len() < self.sources@.len()
    }

    /// The context of the batch.
    pub closed spec fn context(&self) -> BatchContext {
        self.ctx
    }

    /// The files of the batch, in order.
    pub closed spec fn sources(&self) -> Seq<SourceFile> {
        self.sources@
    }

    /// The entries recorded so far, in order.
    pub closed spec fn entries(&self) -> Seq<SortEntry> {
        self.tally.entries()
    }

    /// The names given out so far.
    pub closed spec fn reserved(&self) -> Set<Seq<char>> {
        self.reserved.view()
    }

    /// The mode of the file being placed, while one is.
    pub closed spec fn pending(&self) -> Option<Seq<char>> {
        match self.pending {
            Some(m) => Some(m@),
            None => None,
        }
    }

    /// The file that gets the next entry.
    pub open spec fn current(&self) -> SourceFile {
        self.sources()[self.entries().len() as int]
    }

    /// Starts a batch over `sources` with the context `ctx` (whose mode is
    /// the batch's mode).
    pub fn new(ctx: BatchContext, sources: Vec<SourceFile>) -> (r: SortBatch)
        ensures
            r.context() == ctx,
            r.sources() == sources@,
            r.entries() == Seq::<SortEntry>::empty(),
            r.reserved() == Set::<Seq<char>>::empty(),
            r.pending() is None,
            entries_follow(r.entries(), r.sources()),
    {
        SortBatch { ctx, sources, tally: SortTally::new(), reserved: ReservedNames::new(), pending: None }
    }

    /// Records `entry` for the current file.
    fn record(&mut self, entry: SortEntry)
        requires
            old(self).entries().len() < old(self).sources().len(),
            entry.source_path@ == old(self).current().path@,
        ensures
            final(self).entries() == old(self).entries().push(entry),
            final(self).context() == old(self).context(),
            final(self).sources() == old(self).sources(),
            final(self).reserved() == old(self).reserved(),
            final(self).pending() is None,
    {
        proof {
            use_type_invariant(&*self);
        }
        let total = self.sources.len();
        assert(self.tally.entries().len() < total);
        self.pending = None;
        let mut tally = SortTally::new();
        std::mem::swap(&mut tally, &mut self.tally);
        let tally = tally.record(entry);
        self.tally = tally;
    }

    /// Takes up the next file. A file that no mode applies to is recorded as
    /// skipped; a file whose mode has no destination stops the batch; any
    /// other file is to be placed in its mode's folder.
    pub fn next_file(&mut self) -> (r: NextFile)
        requires
            old(self).pending() is None,
        ensures
            final(self).context() == old(self).context(),
            final(self).sources() == old(self).sources(),
            final(self).reserved() == old(self).reserved(),
            entries_follow(final(self).entries(), final(self).sources()),
            (r is Finished) == (old(self).entries().len() == old(self).sources().len()),
            r is Finished ==> final(self).entries() == old(self).entries() && final(self).pending() is None,
            !(r is Finished) ==> match resolved_mode(old(self).context().mode@, old(self).current()) {
                None => {
                    &&& r is Recorded
                    &&& final(self).entries().drop_last() == old(self).entries()
                    &&& final(self).entries().len() == old(self).entries().len() + 1
                    &&& is_unsupported_entry(final(self).entries().last(), old(self).context(), old(self).current().path@)
                    &&& final(self).pending() is None
                },
                Some(m) => match mode_destination(m) {
                    None => {
                        &&& r matches NextFile::Abort(msg) && msg@ == "Unknown mode selected"@
                        &&& final(self).entries() == old(self).entries()
                        &&& final(self).pending() is None
                    },
                    Some(d) => {
                        &&& r matches NextFile::Place { destination } && destination@ == d
                        &&& final(self).entries() == old(self).entries()
                        &&& final(self).pending() == Some(m)
                    },
                },
            },
    {
        proof {
            use_type_invariant(&*self);
        }
        let k = self.tally.processed();
        if k >= self.sources.len() {
            return NextFile::Finished;
        }
        match plan_file(self.ctx.mode.as_str(), &self.sources[k]) {
            FilePlan::Unsupported => {
                let entry = unsupported_entry(&self.ctx, self.sources[k].path.as_str());
                let ghost before = self.entries();
                self.record(entry);
                assert(self.entries().drop_last() =~= before);
                NextFile::Recorded
            },
            FilePlan::UnknownMode => NextFile::Abort("Unknown mode selected".to_owned()),
            FilePlan::Place { mode, destination } => {
                self.pending = Some(mode);
                NextFile::Place { destination }
            },
        }
    }

    /// Checks the name of the file being placed, once its folder exists. A
    /// name that is not valid Unicode is recorded as failed; otherwise the
    /// search for a free name in the folder starts from the name itself.
    pub fn check_name(&mut self) -> (r: Option<NameSearch>)
        requires
            old(self).pending() is Some,
        ensures
            final(self).context() == old(self).context(),
            final(self).sources() == old(self).sources(),
            final(self).reserved() == old(self).reserved(),
            entries_follow(final(self).entries(), final(self).sources()),
            old(self).current().name_is_text ==> {
                &&& r matches Some(s) && s.wf() && s.file_name() == old(self).current().name@ && s.attempts() == 0
                &&& final(self).entries() == old(self).entries()
                &&& final(self).pending() == old(self).pending()
            },
            !old(self).current().name_is_text ==> {
                &&& r is None
                &&& final(self).entries().drop_last() == old(self).entries()
                &&& final(self).entries().len() == old(self).entries().len() + 1
                &&& is_invalid_name_entry(
                    final(self).entries().last(),
                    old(self).context(),
                    old(self).pending().unwrap(),
                    old(self).current().path@,
                )
                &&& final(self).pending() is None
            },
    {
        proof {
            use_type_invariant(&*self);
        }
        let k = self.tally.processed();
        if self.sources[k].name_is_text {
            return Some(NameSearch::new(self.sources[k].name.as_str()));
        }
        let entry = match &self.pending {
            Some(mode) => invalid_name_entry(&self.ctx, mode.as_str(), self.sources[k].path.as_str()),
            None => {
                return None;
            },
        };
        let ghost before = self.entries();
        self.record(entry);
        assert(self.entries().drop_last() =~= before);
        None
    }

    /// One step of the search for a free name for the file being placed:
    /// `on_disk` tells whether a file of the current candidate's name is in
    /// the destination folder. The names given out are the batch's own.
    pub fn search_step(&mut self, search: &mut NameSearch, on_disk: bool) -> (r: Option<String>)
        requires
            old(search).wf(),
            old(search).attempts() + 2 < u64::MAX,
        ensures
            final(self).context() == old(self).context(),
            final(self).sources() == old(self).sources(),
            final(self).entries() == old(self).entries(),
            final(self).pending() == old(self).pending(),
            entries_follow(final(self).entries(), final(self).sources()),
            final(search).wf(),
            final(search).file_name() == old(search).file_name(),
            final(self).reserved() == reserved_after(
                old(self).reserved(),
                seq![(candidate_name(old(search).file_name(), old(search).attempts()), on_disk)],
            ),
            given_out(old(self).reserved(), seq![(candidate_name(old(search).file_name(), old(search).attempts()), on_disk)])
                == match r {
                Some(n) => seq![n@],
                None => Seq::<Seq<char>>::empty(),
            },
            ({
                let cand = candidate_name(old(search).file_name(), old(search).attempts());
                if !on_disk && !old(self).reserved().contains(cand) {
                    &&& r matches Some(n) && n@ == cand
                    &&& final(search).attempts() == old(search).attempts()
                } else {
                    &&& r is None
                    &&& final(search).attempts() == old(search).attempts() + 1
                }
            }),
    {
        proof {
            use_type_invariant(&*self);
        }
        let mut reserved = ReservedNames::new();
        std::mem::swap(&mut reserved, &mut self.reserved);
        let r = unique_destination_path(search, on_disk, &mut reserved);
        self.reserved = reserved;
        r
    }

    /// Records the file being placed: it went to `dest_path`, stamped at
    /// `timestamp`, and its operation ended with `outcome`. Returns the
    /// entry's result.
    pub fn record_placed(&mut self, dest_path: &str, timestamp: String, outcome: Outcome) -> (r: String)
        requires
            old(self).pending() is Some,
        ensures
            final(self).context() == old(self).context(),
            final(self).sources() == old(self).sources(),
            final(self).reserved() == old(self).reserved(),
            entries_follow(final(self).entries(), final(self).sources()),
            final(self).entries().drop_last() == old(self).entries(),
            final(self).entries().len() == old(self).entries().len() + 1,
            is_placed_entry(
                final(self).entries().last(),
                old(self).context(),
                timestamp,
                old(self).pending().unwrap(),
                old(self).current().path@,
                dest_path@,
                outcome,
            ),
            final(self).pending() is None,
            r@ == outcome_result(outcome),
    {
        proof {
            use_type_invariant(&*self);
        }
        let k = self.tally.processed();
        let entry = match &self.pending {
            Some(mode) => placed_entry(&self.ctx, timestamp, mode.as_str(), self.sources[k].path.as_str(), dest_path, outcome),
            None => {
                return String::new();
            },
        };
        let result = entry.result.clone();
        let ghost before = self.entries();
        self.record(entry);
        assert(self.entries().drop_last() =~= before);
        result
    }

    /// The number of files recorded so far.
    pub fn processed(&self) -> (r: usize)
        ensures
            r == self.entries().len(),
    {
        self.tally.processed()
    }

    /// The number of files in the batch.
    pub fn total(&self) -> (r: usize)
        ensures
            r == self.sources().len(),
    {
        self.sources.len()
    }

    /// Closes the batch: its counts, its entries (one per file recorded, in
    /// the order of the files) and the path of its log.
    pub fn finish(self, log_path: String) -> (r: SortResult)
        ensures
            r.entries@ == self.entries(),
            entries_follow(r.entries@, self.sources()),
            r.processed == self.entries().len(),
            r.failed == count_result(self.entries(), "failed"@),
            r.skipped == count_result(self.entries(), "skipped"@),
            r.log_path == log_path,
    {
        proof {
            use_type_invariant(&self);
        }
        let SortBatch { tally, .. } = self;
        tally.finish(log_path)
    }
}

} // verus!
