//! The per-project CSV log of sorting batches: how a field and a row are
//! written, how log files are named, and which old logs are pruned.

use vstd::prelude::*;

use crate::clock::{now_for_stamps, reading_nanos, ClockReading};
use crate::env::{is_date_stamp, is_rfc3339_stamp, local_rfc3339, stamp_date_len};
use crate::order::{is_stable_order, key_views, stable_order};
use crate::sorting::SortEntry;
use crate::naming::texts;
use crate::text::{chars_of, ends_with, has_prefix, has_suffix, push_char, starts_with, string_from_range};

verus! {

/// The folder under the project root that holds the sorting logs.
pub const LOG_DIR_NAME: &'static str = "_logs";

/// The first line of every log file.
pub const LOG_HEADER: &'static str = "timestamp,username,mode,client,operation,source_path,dest_path,result,error_message\n";

// ---------------------------------------------------------------------------
// Fields and rows
// ---------------------------------------------------------------------------

/// How one character is written inside a CSV field: a double quote is
/// doubled, any other character kept.
pub open spec fn quoted_char(c: char) -> Seq<char> {
    if c == '"' {
        seq!['"', '"']
    } else {
        seq![c]
    }
}

/// `s` with every double quote doubled.
pub open spec fn double_quotes(s: Seq<char>) -> Seq<char>
    decreases s.len(),
{
    if s.len() == 0 {
        Seq::empty()
    } else {
        double_quotes(s.drop_last()) + quoted_char(s.last())
    }
}

/// A CSV field: the value with its quotes doubled, between double quotes.
pub open spec fn csv_field(s: Seq<char>) -> Seq<char> {
    seq!['"'] + double_quotes(s) + seq!['"']
}

/// Quotes a value as a CSV field.
pub fn csv_escape(value: &str) -> (r: String)
    ensures
        r@ == csv_field(value@),
{
    let cs = chars_of(value);
    let mut r = String::new();
    push_char(&mut r, '"');
    let mut i: usize = 0;
    while i < cs.len()
        invariant
            cs@ == value@,
            i <= cs.len(),
            r@ == seq!['"'] + double_quotes(value@.take(i as int)),
        decreases cs.len() - i,
    {
        let c = cs[i];
        assert(value@.take(i + 1).drop_last() =~= value@.take(i as int));
        if c == '"' {
            push_char(&mut r, '"');
            push_char(&mut r, '"');
        } else {
            push_char(&mut r, c);
        }
        assert(r@ =~= seq!['"'] + double_quotes(value@.take(i + 1)));
        i = i + 1;
    }
    assert(value@.take(cs.len() as int) =~= value@);
    push_char(&mut r, '"');
    r
}

/// Reads back a value whose quotes were doubled.
pub open spec fn undouble_quotes(t: Seq<char>) -> Seq<char>
    decreases t.len(),
{
    if t.len() == 0 {
        Seq::empty()
    } else if t.len() >= 2 && t.last() == '"' {
        undouble_quotes(t.subrange(0, t.len() - 2)).push('"')
    } else {
        undouble_quotes(t.drop_last()).push(t.last())
    }
}

proof fn lemma_undouble_double(s: Seq<char>)
    ensures
        undouble_quotes(double_quotes(s)) == s,
    decreases s.len(),
{
    if s.len() > 0 {
        lemma_undouble_double(s.drop_last());
        let d = double_quotes(s);
        let p = double_quotes(s.drop_last());
        if s.last() == '"' {
            assert(d.subrange(0, d.len() - 2) =~= p);
        } else {
            assert(d.drop_last() =~= p);
        }
        assert(s =~= s.drop_last().push(s.last()));
    }
}

/// How many characters of `t` make up a quoted value, up to its closing quote.
pub open spec fn quoted_len(t: Seq<char>) -> nat
    decreases t.len(),
{
    if t.len() == 0 {
        0
    } else if t[0] == '"' {
        if t.len() >= 2 && t[1] == '"' {
            2 + quoted_len(t.subrange(2, t.len() as int))
        } else {
            0
        }
    } else {
        1 + quoted_len(t.drop_first())
    }
}

proof fn lemma_double_quotes_front(c: char, s: Seq<char>)
    ensures
        double_quotes(seq![c] + s) == quoted_char(c) + double_quotes(s),
    decreases s.len(),
{
    if s.len() == 0 {
        assert((seq![c] + s).drop_last() =~= Seq::<char>::empty());
        assert(seq![c] + s =~= seq![c]);
        assert(seq![c].drop_last() =~= Seq::<char>::empty());
        assert(double_quotes(seq![c]) =~= double_quotes(Seq::<char>::empty()) + quoted_char(c));
        assert(double_quotes(seq![c]) =~= quoted_char(c));
    } else {
        lemma_double_quotes_front(c, s.drop_last());
        assert((seq![c] + s).drop_last() =~= seq![c] + s.drop_last());
        assert(double_quotes(seq![c] + s) =~= quoted_char(c) + double_quotes(s));
    }
}

proof fn lemma_quoted_len(a: Seq<char>, u: Seq<char>)
    requires
        u.len() == 0 || u[0] != '"',
    ensures
        quoted_len(double_quotes(a) + seq!['"'] + u) == double_quotes(a).len(),
    decreases a.len(),
{
    if a.len() == 0 {
        assert(double_quotes(a) + seq!['"'] + u =~= seq!['"'] + u);
    } else {
        let c = a[0];
        let rest = a.drop_first();
        assert(a =~= seq![c] + rest);
        lemma_double_quotes_front(c, rest);
        lemma_quoted_len(rest, u);
        let t = double_quotes(a) + seq!['"'] + u;
        let tail = double_quotes(rest) + seq!['"'] + u;
        if c == '"' {
            assert(t.subrange(2, t.len() as int) =~= tail);
        } else {
            assert(t.drop_first() =~= tail);
        }
    }
}

/// A field followed by text that does not start with a quote can be read
/// off the front: the field and the rest are determined.
proof fn lemma_field_prefix(a: Seq<char>, b: Seq<char>, u: Seq<char>, v: Seq<char>)
    requires
        csv_field(a) + u == csv_field(b) + v,
        u.len() > 0 && u[0] != '"',
        v.len() > 0 && v[0] != '"',
    ensures
        a == b,
        u == v,
{
    let t = csv_field(a) + u;
    assert(t.drop_first() =~= double_quotes(a) + seq!['"'] + u);
    assert((csv_field(b) + v).drop_first() =~= double_quotes(b) + seq!['"'] + v);
    lemma_quoted_len(a, u);
    lemma_quoted_len(b, v);
    let n = double_quotes(a).len();
    assert(t.subrange(1, 1 + n as int) =~= double_quotes(a));
    assert((csv_field(b) + v).subrange(1, 1 + n as int) =~= double_quotes(b));
    lemma_undouble_double(a);
    lemma_undouble_double(b);
    assert(u =~= t.subrange(csv_field(a).len() as int, t.len() as int));
    assert(v =~= (csv_field(b) + v).subrange(csv_field(b).len() as int, t.len() as int));
}

proof fn lemma_row_prefix(f: Seq<Seq<char>>, g: Seq<Seq<char>>, u: Seq<char>, v: Seq<char>)
    requires
        f.len() == g.len(),
        f.len() >= 1,
        csv_row(f) + u == csv_row(g) + v,
    ensures
        f == g,
        u == v,
    decreases f.len(),
{
    if f.len() == 1 {
        assert(csv_row(f) + u =~= csv_field(f[0]) + (seq!['\n'] + u));
        assert(csv_row(g) + v =~= csv_field(g[0]) + (seq!['\n'] + v));
        lemma_field_prefix(f[0], g[0], seq!['\n'] + u, seq!['\n'] + v);
        assert(u =~= (seq!['\n'] + u).drop_first());
        assert(v =~= (seq!['\n'] + v).drop_first());
        assert(f =~= g);
    } else {
        let fr = csv_row(f.drop_first());
        let gr = csv_row(g.drop_first());
        assert(csv_row(f) + u =~= csv_field(f[0]) + (seq![','] + (fr + u)));
        assert(csv_row(g) + v =~= csv_field(g[0]) + (seq![','] + (gr + v)));
        lemma_field_prefix(f[0], g[0], seq![','] + (fr + u), seq![','] + (gr + v));
        assert(fr + u =~= (seq![','] + (fr + u)).drop_first());
        assert(gr + v =~= (seq![','] + (gr + v)).drop_first());
        lemma_row_prefix(f.drop_first(), g.drop_first(), u, v);
        assert(f =~= seq![f[0]] + f.drop_first());
        assert(g =~= seq![g[0]] + g.drop_first());
    }
}

/// A log row reads back as the entry's nine fields: two entries with the
/// same row agree on every field.
pub proof fn lemma_entry_row_injective(a: SortEntry, b: SortEntry)
    requires
        entry_row(a) == entry_row(b),
    ensures
        entry_fields(a) == entry_fields(b),
{
    assert(entry_row(a) + Seq::<char>::empty() =~= entry_row(a));
    assert(entry_row(b) + Seq::<char>::empty() =~= entry_row(b));
    lemma_row_prefix(entry_fields(a), entry_fields(b), Seq::empty(), Seq::empty());
}

proof fn lemma_entry_rows_front(es: Seq<SortEntry>)
    requires
        es.len() >= 1,
    ensures
        entry_rows(es) == entry_row(es[0]) + entry_rows(es.drop_first()),
    decreases es.len(),
{
    if es.len() == 1 {
        assert(es.drop_last() =~= Seq::<SortEntry>::empty());
        assert(es.drop_first() =~= Seq::<SortEntry>::empty());
        assert(entry_rows(es) =~= entry_row(es[0]) + entry_rows(es.drop_first()));
    } else {
        lemma_entry_rows_front(es.drop_last());
        assert(es.drop_last().drop_first() =~= es.drop_first().drop_last());
        assert(es.drop_first().last() == es.last());
        assert(entry_rows(es) =~= entry_row(es[0]) + entry_rows(es.drop_first()));
    }
}

proof fn lemma_row_len(e: SortEntry)
    ensures
        entry_row(e).len() > 0,
{
    reveal_with_fuel(csv_row, 2);
}

/// The log of a batch reads back as its entries: two batches written as the
/// same text have as many entries, agreeing field by field.
pub proof fn lemma_entry_rows_injective(a: Seq<SortEntry>, b: Seq<SortEntry>)
    requires
        entry_rows(a) == entry_rows(b),
    ensures
        a.len() == b.len(),
        forall|i: int| 0 <= i < a.len() ==> entry_fields(#[trigger] a[i]) == entry_fields(b[i]),
    decreases a.len(),
{
    if a.len() == 0 && b.len() > 0 {
        lemma_entry_rows_front(b);
        lemma_row_len(b[0]);
    } else if b.len() == 0 && a.len() > 0 {
        lemma_entry_rows_front(a);
        lemma_row_len(a[0]);
    } else if a.len() > 0 {
        lemma_entry_rows_front(a);
        lemma_entry_rows_front(b);
        lemma_row_prefix(entry_fields(a[0]), entry_fields(b[0]), entry_rows(a.drop_first()), entry_rows(b.drop_first()));
        lemma_entry_rows_injective(a.drop_first(), b.drop_first());
        assert forall|i: int| 0 <= i < a.len() implies entry_fields(#[trigger] a[i]) == entry_fields(b[i]) by {
            if i > 0 {
                assert(a[i] == a.drop_first()[i - 1]);
                assert(b[i] == b.drop_first()[i - 1]);
            }
        }
    }
}

/// A CSV field gives back its value: different values are written as
/// different fields.
pub proof fn lemma_csv_field_injective(a: Seq<char>, b: Seq<char>)
    requires
        csv_field(a) == csv_field(b),
    ensures
        a == b,
{
    let fa = csv_field(a);
    let fb = csv_field(b);
    assert(fa.subrange(1, fa.len() - 1) =~= double_quotes(a));
    assert(fb.subrange(1, fb.len() - 1) =~= double_quotes(b));
    lemma_undouble_double(a);
    lemma_undouble_double(b);
}

/// The nine fields of an entry, in log order.
pub open spec fn entry_fields(e: SortEntry) -> Seq<Seq<char>> {
    seq![
        e.timestamp@,
        e.username@,
        e.mode@,
        e.client@,
        e.operation@,
        e.source_path@,
        e.dest_path@,
        e.result@,
        e.error_message@,
    ]
}

/// A CSV line: the fields quoted, separated by commas, ending the line.
pub open spec fn csv_row(fields: Seq<Seq<char>>) -> Seq<char>
    decreases fields.len(),
{
    if fields.len() == 0 {
        seq!['\n']
    } else if fields.len() == 1 {
        csv_field(fields[0]) + seq!['\n']
    } else {
        csv_field(fields[0]) + seq![','] + csv_row(fields.drop_first())
    }
}

/// The log row of an entry.
pub open spec fn entry_row(e: SortEntry) -> Seq<char> {
    csv_row(entry_fields(e))
}

/// The rows of all entries, one after the other.
pub open spec fn entry_rows(es: Seq<SortEntry>) -> Seq<char>
    decreases es.len(),
{
    if es.len() == 0 {
        Seq::empty()
    } else {
        entry_rows(es.drop_last()) + entry_row(es.last())
    }
}

/// Writes a CSV line of the given fields.
pub fn format_row(fields: &Vec<String>) -> (r: String)
    requires
        fields.len() >= 1,
    ensures
        r@ == csv_row(texts(fields@)),
{
    let ghost fs = texts(fields@);
    let mut r = String::new();
    let mut i: usize = 0;
    assert(fs.skip(0) =~= fs);
    assert(r@ + csv_row(fs.skip(0)) =~= csv_row(fs));
    while i < fields.len()
        invariant
            fs == texts(fields@),
            1 <= fields.len(),
            i <= fields.len(),
            i < fields.len() ==> r@ + csv_row(fs.skip(i as int)) == csv_row(fs),
            i == fields.len() ==> r@ == csv_row(fs),
        decreases fields.len() - i,
    {
        let ghost before = r@;
        let ghost rest = fs.skip(i as int);
        assert(rest[0] == fields@[i as int]@);
        r.append(csv_escape(fields[i].as_str()).as_str());
        if i + 1 < fields.len() {
            push_char(&mut r, ',');
            assert(rest.drop_first() =~= fs.skip(i + 1));
            assert(r@ + csv_row(fs.skip(i + 1)) =~= before + csv_row(rest));
        } else {
            push_char(&mut r, '\n');
            assert(rest.len() == 1);
            assert(r@ =~= before + csv_row(rest));
        }
        i = i + 1;
    }
    r
}

/// Writes the log row of one entry.
pub fn format_entry(e: &SortEntry) -> (r: String)
    ensures
        r@ == entry_row(*e),
{
    let fields = vec![
        e.timestamp.clone(),
        e.username.clone(),
        e.mode.clone(),
        e.client.clone(),
        e.operation.clone(),
        e.source_path.clone(),
        e.dest_path.clone(),
        e.result.clone(),
        e.error_message.clone(),
    ];
    assert(texts(fields@) =~= entry_fields(*e));
    format_row(&fields)
}

/// Writes the log rows of all entries of a batch, in order.
pub fn format_log_lines(entries: &Vec<SortEntry>) -> (r: String)
    ensures
        r@ == entry_rows(entries@),
{
    let mut r = String::new();
    let mut i: usize = 0;
    while i < entries.len()
        invariant
            i <= entries.len(),
            r@ == entry_rows(entries@.take(i as int)),
        decreases entries.len() - i,
    {
        assert(entries@.take(i + 1).drop_last() =~= entries@.take(i as int));
        r.append(format_entry(&entries[i]).as_str());
        i = i + 1;
    }
    assert(entries@.take(entries.len() as int) =~= entries@);
    r
}

// ---------------------------------------------------------------------------
// Log file names
// ---------------------------------------------------------------------------

/// The name of the log file of a given date.
pub open spec fn log_name(date: Seq<char>) -> Seq<char> {
    "sort_log_"@ + date + ".csv"@
}

/// Whether a file name is that of a sorting log.
pub open spec fn is_log_name(name: Seq<char>) -> bool {
    has_prefix(name, "sort_log_"@) && has_suffix(name, ".csv"@)
}

/// The name of the log file of the day `date` (written `YYYY-MM-DD`).
pub fn log_file_name(date: &str) -> (r: String)
    ensures
        r@ == log_name(date@),
{
    "sort_log_".to_owned().concat(date).concat(".csv")
}

/// The date at the start of a time stamp (`%Y-%m-%d` of its local time):
/// the text before its `T`.
pub fn stamp_date(stamp: &str) -> (r: String)
    ensures
        r@ == stamp@.subrange(0, if stamp_date_len(stamp@) <= stamp@.len() {
            stamp_date_len(stamp@)
        } else {
            stamp@.len() as int
        }),
        is_rfc3339_stamp(stamp@) ==> is_date_stamp(r@),
{
    let cs = chars_of(stamp);
    let d: usize = if cs.len() > 0 && cs[0] == '+' {
        if cs.len() > 6 && cs[6] == '-' {
            12
        } else {
            13
        }
    } else {
        10
    };
    let to = if d <= cs.len() { d } else { cs.len() };
    string_from_range(&cs, 0, to)
}

/// The name of today's log file: the log name of the local date, written
/// `%Y-%m-%d`. Which date it is depends on the clock and the time zone.
pub fn todays_log_file_name() -> (r: String)
    ensures
        exists|date: Seq<char>| r@ == log_name(date) && is_date_stamp(date),
        is_log_name(r@),
{
    let (secs, nanos) = now_for_stamps();
    let stamp = local_rfc3339(secs, nanos);
    let date = stamp_date(stamp.as_str());
    let r = log_file_name(date.as_str());
    proof {
        lemma_log_name_recognized(date@);
    }
    r
}

/// Whether `name` is the name of a sorting log: it starts with `sort_log_`
/// and ends with `.csv`.
pub fn is_log_file_name(name: &str) -> (r: bool)
    ensures
        r == is_log_name(name@),
{
    starts_with(name, "sort_log_") && ends_with(name, ".csv")
}

/// Every log the sorter writes is one that pruning recognizes.
pub proof fn lemma_log_name_recognized(date: Seq<char>)
    ensures
        is_log_name(log_name(date)),
{
    let n = log_name(date);
    let p = "sort_log_"@;
    let x = ".csv"@;
    assert(n.subrange(0, p.len() as int) =~= p);
    assert(n.subrange(n.len() - x.len(), n.len() as int) =~= x);
}

// ---------------------------------------------------------------------------
// Pruning
// ---------------------------------------------------------------------------

/// Nanoseconds in a day.
pub open spec fn nanos_per_day() -> int {
    86_400_000_000_000
}

/// The instant `max_days` days before `now` (both in nanoseconds since the
/// Unix epoch).
pub fn cutoff_from(now: i128, max_days: i64) -> (r: i128)
    requires
        -100_000_000_000_000_000_000_000_000_000 <= now <= 100_000_000_000_000_000_000_000_000_000,
    ensures
        r == now - max_days * nanos_per_day(),
{
    let days = max_days as i128;
    assert(days * 86_400_000_000_000 <= 9_223_372_036_854_775_808i128 * 86_400_000_000_000) by (nonlinear_arith)
        requires days <= 9_223_372_036_854_775_807i128, days >= -9_223_372_036_854_775_808i128;
    assert(days * 86_400_000_000_000 >= -9_223_372_036_854_775_808i128 * 86_400_000_000_000) by (nonlinear_arith)
        requires days <= 9_223_372_036_854_775_807i128, days >= -9_223_372_036_854_775_808i128;
    now - days * 86_400_000_000_000
}

proof fn lemma_reading_bounds(r: ClockReading)
    ensures
        -100_000_000_000_000_000_000_000_000_000 <= reading_nanos(r) <= 100_000_000_000_000_000_000_000_000_000,
{
    match r {
        Ok((s, n)) => {
            assert(s * 1_000_000_000 <= 18_446_744_073_709_551_615 * 1_000_000_000) by (nonlinear_arith)
                requires s <= 18_446_744_073_709_551_615u64;
        },
        Err((s, n)) => {
            assert(s * 1_000_000_000 <= 18_446_744_073_709_551_615 * 1_000_000_000) by (nonlinear_arith)
                requires s <= 18_446_744_073_709_551_615u64;
        },
    }
}

/// The instant before which logs count as expired: `max_days` days before
/// the instant the clock reads. Which instant that is depends on the clock.
pub fn prune_cutoff(max_days: i64) -> (r: i128)
    ensures
        exists|reading: ClockReading| r == reading_nanos(reading) - max_days * nanos_per_day(),
{
    let reading = crate::env::system_clock();
    let now = crate::clock::instant_nanos(reading);
    proof {
        lemma_reading_bounds(reading);
    }
    cutoff_from(now, max_days)
}

/// Whether a log last modified at `modified` (nanoseconds since the epoch,
/// `None` when unknown) is expired: it is known and before `cutoff`.
pub fn is_expired(modified: Option<i128>, cutoff: i128) -> (r: bool)
    ensures
        r == (modified matches Some(m) && m < cutoff),
{
    match modified {
        Some(m) => m < cutoff,
        None => false,
    }
}

/// The logs to remove so that at most `max_files` remain: the oldest ones
/// by modification time (unknown times first, ties in listing order), as
/// indices into `modified`, oldest first.
pub fn logs_over_limit(modified: &Vec<Option<i128>>, max_files: usize) -> (r: Vec<usize>)
    ensures
        modified.len() <= max_files ==> r@.len() == 0,
        modified.len() > max_files ==> is_stable_order::<Option<i128>>(key_views(modified@), r@, (modified.len() - max_files) as nat),
{
    if modified.len() > max_files {
        stable_order(modified, modified.len() - max_files)
    } else {
        Vec::new()
    }
}

} // verus!
