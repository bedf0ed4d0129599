//! A verified model of the persistent record store: an ordered table
//! of compacted entries, a staging outbox, the write-merge that runs
//! the compactor against the trailing persisted row, and range reads.
//! The SQL mirror executes the write plan this model produces.
use vstd::prelude::*;

use crate::entries::dedup_fits;
use crate::entries::dedup_init;
use crate::entries::dedup_model;
use crate::entries::deduplicate_entries;
use crate::entries::empty_vars;
use crate::entries::lemma_compact_idempotent_fresh;
use crate::entries::lemma_compact_len_nondecreasing;
use crate::entries::lemma_compact_no_uninit;
use crate::entries::lemma_sum_take_le;
use crate::entries::lemma_sum_take_succ;
use crate::entries::statuses_model;
use crate::entries::sum_durs;
use crate::entries::views_of;
use crate::entries::can_merge_spec;
use crate::entries::Entry;
use crate::entries::EntryStatus;
use crate::entries::EntryView;
use crate::entries::RecordRowStatus;
use vstd::pervasive::VecAdditionalExecFns;

verus! {

/// The greatest number of named environment variables one entry's
/// variable record can hold.
pub const ENVIRONMENT_VARIABLE_NAMES_MAX_COUNT: usize = 5;

/// How a store operation fails. Opening a missing store read-only is
/// `NotFound`; a lock or I/O failure during a write is `TransientIo`
/// and may be retried by the caller; a malformed persisted value is
/// `Corrupt` and fatal; an input that breaks the store's invariants
/// (an `Uninitialized` sample, a sum of durations past the integer
/// range) is `InvariantViolation`, a programming error.
#[derive(Debug, Copy, Clone, PartialEq, Eq, Structural)]
pub enum StoreError {
    NotFound,
    TransientIo,
    Corrupt,
    InvariantViolation,
}

/// Whether an entry's timestamp lies strictly inside the range: both
/// boundaries are exclusive, so an entry exactly on one is dropped.
pub open spec fn in_range(e: EntryView, start: int, end: int) -> bool {
    start < e.utc_time_seconds && e.utc_time_seconds < end
}

/// The entries whose timestamps lie strictly inside the range, in
/// their table order.
pub open spec fn filter_range(rows: Seq<EntryView>, start: int, end: int) -> Seq<EntryView>
    decreases rows.len(),
{
    if rows.len() == 0 {
        Seq::empty()
    } else {
        let rest = filter_range(rows.drop_last(), start, end);
        if in_range(rows.last(), start, end) {
            rest.push(rows.last())
        } else {
            rest
        }
    }
}

/// The mathematical value of a query result: its range bounds and the
/// entries it holds.
pub ghost struct EntriesView {
    pub start_utc_time_seconds: int,
    pub end_utc_time_seconds: int,
    pub entries: Seq<EntryView>,
}

/// A read-only query result: the entries of one time range, ordered
/// ascending by timestamp, with the range they were fetched for.
#[derive(Debug)]
pub struct Entries {
    start_utc_time_seconds: u64,
    end_utc_time_seconds: u64,
    entries: Vec<Entry>,
}

impl View for Entries {
    type V = EntriesView;

    closed spec fn view(&self) -> EntriesView {
        EntriesView {
            start_utc_time_seconds: self.start_utc_time_seconds as int,
            end_utc_time_seconds: self.end_utc_time_seconds as int,
            entries: views_of(self.entries@),
        }
    }
}

/// The largest index whose entry lies strictly inside the range, or 0
/// when none does.
pub open spec fn last_index_in_range(rows: Seq<EntryView>, start: int, end: int) -> int
    decreases rows.len(),
{
    if rows.len() == 0 {
        0
    } else if in_range(rows.last(), start, end) {
        rows.len() - 1
    } else {
        last_index_in_range(rows.drop_last(), start, end)
    }
}

impl Entries {
    /// A builder for a query result.
    pub fn builder() -> (r: EntriesBuilder)
        ensures
            r@.start_utc_time_seconds == 0,
            r@.end_utc_time_seconds == u64::MAX,
            r@.entries.len() == 0,
    {
        EntriesBuilder::new()
    }

    /// The start of the range this result was fetched for, in UTC
    /// seconds.
    pub fn start_datetime(&self) -> (r: u64)
        ensures
            r == self@.start_utc_time_seconds,
    {
        self.start_utc_time_seconds
    }

    /// The end of the range this result was fetched for, in UTC
    /// seconds.
    pub fn end_datetime(&self) -> (r: u64)
        ensures
            r == self@.end_utc_time_seconds,
    {
        self.end_utc_time_seconds
    }

    /// All entries of this result.
    pub fn all_entries(&self) -> (r: &Vec<Entry>)
        ensures
            views_of(r@) == self@.entries,
    {
        &self.entries
    }

    /// The prefix of the entries up to, but not including, the last
    /// one whose timestamp lies strictly inside the given range.
    /// Note the exact cut, kept because report callers were built
    /// against it rather than by design: the last in-range entry is
    /// itself excluded, and entries before it are kept whether or
    /// not they lie inside the range (empty when nothing is in
    /// range).
    pub fn datetime_range_entries(
        &self,
        start_utc_time_seconds: u64,
        end_utc_time_seconds: u64,
    ) -> (r: &[Entry])
        ensures
            views_of(r@) == self@.entries.take(
                last_index_in_range(
                    self@.entries,
                    start_utc_time_seconds as int,
                    end_utc_time_seconds as int,
                ),
            ),
    {
        let ghost rows = self@.entries;
        let ghost start = start_utc_time_seconds as int;
        let ghost end = end_utc_time_seconds as int;
        let mut end_index: usize = 0;
        let n = self.entries.len();
        let mut i: usize = 0;
        while i < n
            invariant
                0 <= i <= n,
                n == self.entries.len(),
                rows == self@.entries,
                rows.len() == n,
                forall|k: int| 0 <= k < rows.len() ==> #[trigger] rows[k] == self.entries@[k]@,
                start == start_utc_time_seconds as int,
                end == end_utc_time_seconds as int,
                end_index as int == last_index_in_range(rows.take(i as int), start, end),
                end_index <= i,
            decreases n - i,
        {
            proof {
                assert(rows.take(i + 1).drop_last() =~= rows.take(i as int));
                assert(rows.take(i + 1).last() == rows[i as int]);
            }
            let e = &self.entries[i];
            if e.utc_time_seconds > start_utc_time_seconds && e.utc_time_seconds
                < end_utc_time_seconds {
                end_index = i;
            }
            i = i + 1;
        }
        proof {
            assert(rows.take(n as int) =~= rows);
            assert(views_of(self.entries@.subrange(0, end_index as int)) =~= self@.entries.take(
                end_index as int,
            ));
        }
        slice_take(self.entries.as_slice(), end_index)
    }

    /// Whether the given sub-range holds no entries, under the same
    /// trimming as `datetime_range_entries`.
    pub fn is_datetime_range_empty(
        &self,
        start_utc_time_seconds: u64,
        end_utc_time_seconds: u64,
    ) -> (r: bool)
        ensures
            r == (self@.entries.take(
                last_index_in_range(
                    self@.entries,
                    start_utc_time_seconds as int,
                    end_utc_time_seconds as int,
                ),
            ).len() == 0),
    {
        let s = self.datetime_range_entries(start_utc_time_seconds, end_utc_time_seconds);
        s.len() == 0
    }

    /// Whether this result holds no entries at all.
    pub fn is_empty(&self) -> (r: bool)
        ensures
            r == (self@.entries.len() == 0),
    {
        self.entries.is_empty()
    }
}

/// The first `n` elements of a slice.
fn slice_take<'a>(s: &'a [Entry], n: usize) -> (r: &'a [Entry])
    requires
        n <= s@.len(),
    ensures
        r@ == s@.subrange(0, n as int),
{
    let r = s.split_at(n).0;
    r
}

/// Builds a query result from its parts.
pub struct EntriesBuilder {
    start_utc_time_seconds: u64,
    end_utc_time_seconds: u64,
    entries: Vec<Entry>,
}

impl View for EntriesBuilder {
    type V = EntriesView;

    closed spec fn view(&self) -> EntriesView {
        EntriesView {
            start_utc_time_seconds: self.start_utc_time_seconds as int,
            end_utc_time_seconds: self.end_utc_time_seconds as int,
            entries: views_of(self.entries@),
        }
    }
}

impl EntriesBuilder {
    /// A builder whose range is the whole of time and whose entry
    /// list is empty.
    pub fn new() -> (r: EntriesBuilder)
        ensures
            r@.start_utc_time_seconds == 0,
            r@.end_utc_time_seconds == u64::MAX,
            r@.entries.len() == 0,
    {
        let r = EntriesBuilder {
            start_utc_time_seconds: 0,
            end_utc_time_seconds: u64::MAX,
            entries: Vec::new(),
        };
        proof {
            assert(views_of(r.entries@) =~= Seq::<EntryView>::empty());
        }
        r
    }

    /// Sets the range start.
    pub fn start_datetime(self, value: u64) -> (r: EntriesBuilder)
        ensures
            r@ == (EntriesView { start_utc_time_seconds: value as int, ..self@ }),
    {
        EntriesBuilder { start_utc_time_seconds: value, ..self }
    }

    /// Sets the range end.
    pub fn end_datetime(self, value: u64) -> (r: EntriesBuilder)
        ensures
            r@ == (EntriesView { end_utc_time_seconds: value as int, ..self@ }),
    {
        EntriesBuilder { end_utc_time_seconds: value, ..self }
    }

    /// Sets the entry list.
    pub fn entries(self, entries: Vec<Entry>) -> (r: EntriesBuilder)
        ensures
            r@ == (EntriesView { entries: views_of(entries@), ..self@ }),
    {
        EntriesBuilder { entries, ..self }
    }

    /// Finishes the build.
    pub fn build(self) -> (r: Entries)
        ensures
            r@ == self@,
    {
        Entries {
            start_utc_time_seconds: self.start_utc_time_seconds,
            end_utc_time_seconds: self.end_utc_time_seconds,
            entries: self.entries,
        }
    }
}

impl Default for EntriesBuilder {
    /// The same builder `new` yields.
    fn default() -> (r: EntriesBuilder)
        ensures
            r@.start_utc_time_seconds == 0,
            r@.end_utc_time_seconds == u64::MAX,
            r@.entries.len() == 0,
    {
        EntriesBuilder::new()
    }
}


/// The sentinel view meaning "no prior entry exists".
pub open spec fn uninitialized_view() -> EntryView {
    EntryView {
        utc_time_seconds: 0,
        duration_seconds: 0,
        status: EntryStatus::Uninitialized,
        vars: empty_vars(),
    }
}

/// The most recent persisted entry: the trailing row, or the
/// sentinel when the table is empty.
pub open spec fn store_last(rows: Seq<EntryView>) -> EntryView {
    if rows.len() > 0 {
        rows.last()
    } else {
        uninitialized_view()
    }
}

/// The mathematical state of a store: the persisted rows in the
/// order written (ascending by timestamp when writes come in time
/// order), the staged outbox, and the merge tolerance.
pub ghost struct StorageView {
    pub rows: Seq<EntryView>,
    pub outbox: Seq<EntryView>,
    pub record_interval_seconds: int,
}

/// The SQL actions one write-merge asks of the persistent mirror:
/// one duration update (keyed by timestamp) per entry of `updates`,
/// one full-row insert per entry of `inserts`, in one transaction.
#[derive(Debug)]
pub struct WritePlan {
    pub updates: Vec<Entry>,
    pub inserts: Vec<Entry>,
}

/// The storage engine's verified core: the table model, the staging
/// outbox, and the write-merge. A persistent mirror (a SQLite file)
/// stays in step with the model by executing each returned
/// `WritePlan`.
pub struct Storage {
    rows: Vec<Entry>,
    entries: Vec<Entry>,
    record_interval_seconds: u64,
}

impl View for Storage {
    type V = StorageView;

    closed spec fn view(&self) -> StorageView {
        StorageView {
            rows: views_of(self.rows@),
            outbox: views_of(self.entries@),
            record_interval_seconds: self.record_interval_seconds as int,
        }
    }
}

impl Storage {
    /// Every persisted row is real: the `Uninitialized` sentinel is
    /// never stored.
    pub open spec fn wf(self) -> bool {
        forall|k: int|
            0 <= k < self@.rows.len() ==> #[trigger] self@.rows[k].status
                != EntryStatus::Uninitialized
    }

    /// A fresh, empty store that merges samples whose end instants
    /// lie within `record_interval_seconds` of each other.
    pub fn new(record_interval_seconds: u64) -> (r: Storage)
        ensures
            r@.rows.len() == 0,
            r@.outbox.len() == 0,
            r@.record_interval_seconds == record_interval_seconds,
            r.wf(),
    {
        let r = Storage { rows: Vec::new(), entries: Vec::new(), record_interval_seconds };
        proof {
            assert(views_of(r.rows@) =~= Seq::<EntryView>::empty());
            assert(views_of(r.entries@) =~= Seq::<EntryView>::empty());
        }
        r
    }

    /// Stages entries in the outbox; no row changes until
    /// `write_entries`.
    pub fn insert_entries(&mut self, entries: &Vec<Entry>)
        ensures
            final(self)@.rows == old(self)@.rows,
            final(self)@.record_interval_seconds == old(self)@.record_interval_seconds,
            final(self)@.outbox == old(self)@.outbox + views_of(entries@),
            old(self).wf() ==> final(self).wf(),
    {
        let ghost incoming = views_of(entries@);
        let mut i: usize = 0;
        proof {
            assert(self@.outbox + incoming.take(0) =~= self@.outbox);
        }
        while i < entries.len()
            invariant
                0 <= i <= entries.len(),
                incoming == views_of(entries@),
                incoming.len() == entries@.len(),
                forall|k: int| 0 <= k < incoming.len() ==> #[trigger] incoming[k] == entries@[k]@,
                self@.rows == old(self)@.rows,
                self@.record_interval_seconds == old(self)@.record_interval_seconds,
                self@.outbox == old(self)@.outbox + incoming.take(i as int),
            decreases entries.len() - i,
        {
            let ghost before = self@.outbox;
            self.entries.push(entries[i].clone());
            proof {
                assert(views_of(self.entries@) =~= before.push(incoming[i as int]));
                assert(incoming.take(i + 1) =~= incoming.take(i as int).push(incoming[i as int]));
                assert(old(self)@.outbox + incoming.take(i + 1) =~= before.push(
                    incoming[i as int],
                ));
            }
            i = i + 1;
        }
        proof {
            assert(incoming.take(entries@.len() as int) =~= incoming);
        }
    }

    /// Runs the write-merge: compacts the outbox against the most
    /// recent persisted row, updates that row's duration when the
    /// compactor extended it, appends every new run, and clears the
    /// outbox — all reflected in the returned plan for the
    /// persistent mirror. Fails, changing nothing, exactly when the
    /// outbox holds an `Uninitialized` sample or the arithmetic
    /// would not fit.
    pub fn write_entries(&mut self) -> (r: Result<WritePlan, StoreError>)
        requires
            old(self).wf(),
        ensures
            match r {
                Ok(plan) => {
                    let last = store_last(old(self)@.rows);
                    let out = dedup_model(
                        last,
                        old(self)@.outbox,
                        old(self)@.record_interval_seconds,
                    );
                    let head_real = last.status != EntryStatus::Uninitialized;
                    &&& dedup_fits(last, old(self)@.outbox)
                    &&& forall|k: int|
                        0 <= k < old(self)@.outbox.len() ==> #[trigger] old(
                            self,
                        )@.outbox[k].status != EntryStatus::Uninitialized
                    &&& views_of(plan.updates@) == if head_real {
                        seq![out[0]]
                    } else {
                        Seq::<EntryView>::empty()
                    }
                    &&& views_of(plan.inserts@) == if head_real {
                        out.skip(1)
                    } else {
                        out
                    }
                    &&& final(self)@.rows == if head_real {
                        old(self)@.rows.drop_last() + out
                    } else {
                        old(self)@.rows + out
                    }
                    &&& final(self)@.outbox.len() == 0
                    &&& final(self)@.record_interval_seconds == old(
                        self,
                    )@.record_interval_seconds
                    &&& final(self).wf()
                },
                Err(e) => {
                    &&& e == StoreError::InvariantViolation
                    &&& final(self)@ == old(self)@
                    &&& (!dedup_fits(store_last(old(self)@.rows), old(self)@.outbox) || exists|
                        k: int,
                    |
                        0 <= k < old(self)@.outbox.len() && #[trigger] old(
                            self,
                        )@.outbox[k].status == EntryStatus::Uninitialized)
                },
            },
    {
        let ghost old_rows = self@.rows;
        let ghost outbox = self@.outbox;
        let ghost tol = self@.record_interval_seconds;

        let last: Entry = if self.rows.len() == 0 {
            Entry::empty()
        } else {
            let n = self.rows.len();
            self.rows[n - 1].clone()
        };
        proof {
            assert(last@ == store_last(old_rows));
        }

        // Reject an outbox that holds the sentinel (it must never be
        // persisted) or arithmetic that would not fit.
        if !entries_all_real(&self.entries) {
            return Err(StoreError::InvariantViolation);
        }
        if !check_dedup_fits(&last, &self.entries) {
            return Err(StoreError::InvariantViolation);
        }

        // Compact the outbox against the trailing row.
        let mut dedup: Vec<Entry> = Vec::new();
        let mut sts: Vec<RecordRowStatus> = Vec::new();
        deduplicate_entries(&last, &self.entries, self.record_interval_seconds, &mut dedup, &mut sts);
        let ghost out = dedup_model(last@, outbox, tol);
        let ghost head_real = last@.status != EntryStatus::Uninitialized;
        proof {
            if head_real {
                lemma_compact_len_nondecreasing(dedup_init(last@), outbox, tol);
            }
            assert forall|k: int|
                0 <= k < outbox.len() implies #[trigger] outbox[k].status
                != EntryStatus::Uninitialized by {}
            lemma_compact_no_uninit(dedup_init(last@), outbox, tol);
        }

        // Partition the compacted runs by row status.
        let mut updates: Vec<Entry> = Vec::new();
        let mut inserts: Vec<Entry> = Vec::new();
        let mut k: usize = 0;
        if sts.len() > 0 {
            let first_existing = match sts[0] {
                RecordRowStatus::Existing => true,
                RecordRowStatus::New => false,
            };
            if first_existing {
                updates.push(dedup[0].clone());
                k = 1;
            }
        }
        let ghost lo = k as int;
        proof {
            assert(views_of(inserts@) =~= out.subrange(lo, lo));
            if head_real {
                assert(views_of(updates@) =~= seq![out[0]]);
            } else {
                assert(views_of(updates@) =~= Seq::<EntryView>::empty());
            }
        }
        while k < dedup.len()
            invariant
                lo <= k as int <= dedup@.len(),
                views_of(dedup@) == out,
                dedup@.len() == sts@.len(),
                sts@ == statuses_model(head_real, out.len() as int),
                lo == if head_real {
                    1int
                } else {
                    0int
                },
                lo <= out.len(),
                views_of(updates@) == if head_real {
                    seq![out[0]]
                } else {
                    Seq::<EntryView>::empty()
                },
                views_of(inserts@) == out.subrange(lo, k as int),
            decreases dedup@.len() - k,
        {
            let ghost before = views_of(inserts@);
            inserts.push(dedup[k].clone());
            proof {
                assert(views_of(inserts@) =~= before.push(out[k as int]));
                assert(out.subrange(lo, k + 1) =~= out.subrange(lo, k as int).push(out[k as int]));
            }
            k = k + 1;
        }
        proof {
            if head_real {
                assert(out.subrange(lo, out.len() as int) =~= out.skip(1));
            } else {
                assert(out.subrange(lo, out.len() as int) =~= out);
            }
        }

        // Apply the plan to the table model.
        if updates.len() > 0 {
            let n = self.rows.len();
            proof {
                assert(head_real);
                assert(old_rows.len() > 0);
            }
            let ghost rows_before = views_of(self.rows@);
            self.rows.set(n - 1, updates[0].clone());
            proof {
                assert(views_of(self.rows@) =~= old_rows.drop_last().push(out[0]));
            }
        }
        let ghost base = views_of(self.rows@);
        let ghost ins = views_of(inserts@);
        let mut j: usize = 0;
        proof {
            assert(base + ins.take(0) =~= base);
        }
        while j < inserts.len()
            invariant
                0 <= j <= inserts.len(),
                ins == views_of(inserts@),
                ins.len() == inserts@.len(),
                forall|k2: int| 0 <= k2 < ins.len() ==> #[trigger] ins[k2] == inserts@[k2]@,
                views_of(self.rows@) == base + ins.take(j as int),
                self.entries@ == old(self).entries@,
                self.record_interval_seconds == old(self).record_interval_seconds,
            decreases inserts.len() - j,
        {
            let ghost before = views_of(self.rows@);
            self.rows.push(inserts[j].clone());
            proof {
                assert(views_of(self.rows@) =~= before.push(ins[j as int]));
                assert(ins.take(j + 1) =~= ins.take(j as int).push(ins[j as int]));
                assert(base + ins.take(j + 1) =~= before.push(ins[j as int]));
            }
            j = j + 1;
        }
        proof {
            assert(ins.take(ins.len() as int) =~= ins);
            if head_real {
                assert(views_of(self.rows@) =~= old_rows.drop_last() + out);
            } else {
                assert(views_of(self.rows@) =~= old_rows + out);
            }
        }
        self.entries.clear();
        proof {
            assert(views_of(self.entries@) =~= Seq::<EntryView>::empty());
        }
        Ok(WritePlan { updates, inserts })
    }

    /// Reads the entries whose timestamps lie strictly between the
    /// two bounds, in table order (ascending by timestamp when the
    /// table was filled in time order). Boundary entries are
    /// excluded by design.
    pub fn read_entries(&mut self, start_utc_time_seconds: u64, end_utc_time_seconds: u64) -> (r:
        Result<Entries, StoreError>)
        ensures
            final(self)@ == old(self)@,
            match r {
                Ok(es) => es@ == (EntriesView {
                    start_utc_time_seconds: start_utc_time_seconds as int,
                    end_utc_time_seconds: end_utc_time_seconds as int,
                    entries: filter_range(
                        old(self)@.rows,
                        start_utc_time_seconds as int,
                        end_utc_time_seconds as int,
                    ),
                }),
                Err(_) => false,
            },
    {
        let ghost rows = self@.rows;
        let ghost start = start_utc_time_seconds as int;
        let ghost end = end_utc_time_seconds as int;
        let mut found: Vec<Entry> = Vec::new();
        let mut i: usize = 0;
        proof {
            assert(views_of(found@) =~= Seq::<EntryView>::empty());
            assert(rows.take(0) =~= Seq::<EntryView>::empty());
        }
        while i < self.rows.len()
            invariant
                0 <= i <= self.rows.len(),
                self == old(self),
                rows == self@.rows,
                rows.len() == self.rows@.len(),
                forall|k: int| 0 <= k < rows.len() ==> #[trigger] rows[k] == self.rows@[k]@,
                start == start_utc_time_seconds as int,
                end == end_utc_time_seconds as int,
                views_of(found@) == filter_range(rows.take(i as int), start, end),
            decreases self.rows.len() - i,
        {
            proof {
                assert(rows.take(i + 1).drop_last() =~= rows.take(i as int));
                assert(rows.take(i + 1).last() == rows[i as int]);
            }
            let e = &self.rows[i];
            if e.utc_time_seconds > start_utc_time_seconds && e.utc_time_seconds
                < end_utc_time_seconds {
                let ghost before = views_of(found@);
                found.push(e.clone());
                proof {
                    assert(views_of(found@) =~= before.push(rows[i as int]));
                }
            }
            i = i + 1;
        }
        proof {
            assert(rows.take(rows.len() as int) =~= rows);
        }
        let result = Entries::builder().start_datetime(start_utc_time_seconds).end_datetime(
            end_utc_time_seconds,
        ).entries(found).build();
        Ok(result)
    }

    /// Releases the store; the model keeps its state, so a repeated
    /// close changes nothing.
    pub fn close(&mut self)
        ensures
            final(self)@ == old(self)@,
    {
    }
}


/// Whether every entry is real (none is the `Uninitialized`
/// sentinel).
pub fn entries_all_real(entries: &Vec<Entry>) -> (r: bool)
    ensures
        r == forall|k: int|
            0 <= k < views_of(entries@).len() ==> #[trigger] views_of(entries@)[k].status
                != EntryStatus::Uninitialized,
{
    let ghost outbox = views_of(entries@);
    let mut i: usize = 0;
    while i < entries.len()
        invariant
            0 <= i <= entries.len(),
            outbox == views_of(entries@),
            outbox.len() == entries@.len(),
            forall|k: int| 0 <= k < outbox.len() ==> #[trigger] outbox[k] == entries@[k]@,
            forall|k: int|
                0 <= k < i ==> #[trigger] outbox[k].status != EntryStatus::Uninitialized,
        decreases entries.len() - i,
    {
        let is_real = match entries[i].status {
            EntryStatus::Uninitialized => false,
            _ => true,
        };
        if !is_real {
            proof {
                assert(outbox[i as int].status == EntryStatus::Uninitialized);
            }
            return false;
        }
        i = i + 1;
    }
    true
}

/// Whether the compaction of `entries` against `last_entry` fits the
/// integer range: every timestamp in play plus the total duration in
/// play stays within a `u64`.
pub fn check_dedup_fits(last_entry: &Entry, entries: &Vec<Entry>) -> (r: bool)
    ensures
        r == dedup_fits(last_entry@, views_of(entries@)),
{
    let ghost outbox = views_of(entries@);
    let mut total: u64 = last_entry.duration_seconds;
    let mut i: usize = 0;
    proof {
        assert(outbox.take(0) =~= Seq::<EntryView>::empty());
        assert(sum_durs(Seq::<EntryView>::empty()) == 0);
        assert forall|k: int|
            0 <= k < outbox.len() implies #[trigger] outbox[k].duration_seconds >= 0 by {
            assert(outbox[k] == entries@[k]@);
        }
    }
    while i < entries.len()
        invariant
            0 <= i <= entries.len(),
            outbox == views_of(entries@),
            outbox.len() == entries@.len(),
            forall|k: int| 0 <= k < outbox.len() ==> #[trigger] outbox[k] == entries@[k]@,
            forall|k: int| 0 <= k < outbox.len() ==> #[trigger] outbox[k].duration_seconds >= 0,
            total == last_entry@.duration_seconds + sum_durs(outbox.take(i as int)),
        decreases entries.len() - i,
    {
        proof {
            lemma_sum_take_succ(outbox, i as int);
        }
        total = match total.checked_add(entries[i].duration_seconds) {
            Some(v) => v,
            None => {
                proof {
                    lemma_sum_take_le(outbox, i + 1);
                }
                return false;
            },
        };
        i = i + 1;
    }
    proof {
        assert(outbox.take(outbox.len() as int) =~= outbox);
    }
    if last_entry.utc_time_seconds.checked_add(total).is_none() {
        return false;
    }
    let mut i: usize = 0;
    while i < entries.len()
        invariant
            0 <= i <= entries.len(),
            outbox == views_of(entries@),
            outbox.len() == entries@.len(),
            forall|k: int| 0 <= k < outbox.len() ==> #[trigger] outbox[k] == entries@[k]@,
            total == last_entry@.duration_seconds + sum_durs(outbox),
            last_entry@.utc_time_seconds + total <= u64::MAX,
            forall|k: int|
                0 <= k < i ==> #[trigger] outbox[k].utc_time_seconds + total <= u64::MAX,
        decreases entries.len() - i,
    {
        if entries[i].utc_time_seconds.checked_add(total).is_none() {
            proof {
                assert(outbox[i as int].utc_time_seconds + total > u64::MAX);
                assert(!dedup_fits(last_entry@, outbox));
            }
            return false;
        }
        i = i + 1;
    }
    true
}

/// Every entry inside the range passes the range filter unchanged.
pub proof fn lemma_filter_range_all_in(rows: Seq<EntryView>, start: int, end: int)
    requires
        forall|k: int| 0 <= k < rows.len() ==> in_range(#[trigger] rows[k], start, end),
    ensures
        filter_range(rows, start, end) == rows,
    decreases rows.len(),
{
    if rows.len() > 0 {
        lemma_filter_range_all_in(rows.drop_last(), start, end);
        assert(filter_range(rows, start, end) =~= rows.drop_last().push(rows.last()));
        assert(rows.drop_last().push(rows.last()) =~= rows);
    }
}

/// Round trip through a fresh store: an already-compacted batch (no
/// two consecutive entries mergeable, no sentinel) written to an
/// empty table is persisted as-is, and a read whose range strictly
/// contains every timestamp returns exactly that batch — the same
/// timestamps, statuses, durations and variables.
pub proof fn lemma_store_round_trip(
    last: EntryView,
    samples: Seq<EntryView>,
    tol: int,
    start: int,
    end: int,
)
    requires
        last.status == EntryStatus::Uninitialized,
        forall|k: int|
            0 <= k < samples.len() ==> #[trigger] samples[k].status != EntryStatus::Uninitialized,
        forall|i: int| 0 <= i < samples.len() - 1 ==> !can_merge_spec(samples[i], #[trigger] samples[i + 1], tol),
        forall|k: int| 0 <= k < samples.len() ==> in_range(#[trigger] samples[k], start, end),
    ensures
        filter_range(dedup_model(last, samples, tol), start, end) == samples,
{
    lemma_compact_idempotent_fresh(samples, last, tol);
    lemma_filter_range_all_in(samples, start, end);
}


} // verus!
