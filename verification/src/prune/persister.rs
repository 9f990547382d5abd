//! The pruner's statistics records: counts are folded into one record per
//! record interval, and records are buffered and written together once per
//! flush interval. The caller keeps the clocks and performs the writes; this
//! state decides what to record and what to write.

use vstd::prelude::*;

use crate::prune::counts::ContentCounts;

verus! {

/// One interval's record: its bounds (microseconds since the epoch) and
/// the skeets, images examined and images saved over it.
#[derive(Debug, Clone, Copy, PartialEq, Eq, Structural)]
pub struct PruneStats {
    pub interval_start: i64,
    pub interval_end: i64,
    pub skeets_seen: u64,
    pub images_examined: u64,
    pub images_saved: u64,
}

/// What to do after taking in one message's counts.
#[derive(Debug, Clone, Copy, PartialEq, Eq, Structural)]
pub struct PersistStep {
    /// A record was cut: restart the record clock.
    pub recorded: bool,
    /// Write the buffered records now.
    pub flush: bool,
}

/// The record cut from `since` over `[start, end)`.
pub open spec fn record_of(since: ContentCounts, start: i64, end: i64) -> PruneStats {
    PruneStats {
        interval_start: start,
        interval_end: end,
        skeets_seen: since.posts,
        images_examined: since.images,
        images_saved: since.saved,
    }
}

/// The skeets, images examined and images saved over all of `records`.
pub open spec fn buffered_totals(records: Seq<PruneStats>) -> (nat, nat, nat)
    decreases records.len(),
{
    if records.len() == 0 {
        (0, 0, 0)
    } else {
        let t = buffered_totals(records.drop_last());
        let r = records.last();
        (t.0 + r.skeets_seen as nat, t.1 + r.images_examined as nat, t.2 + r.images_saved as nat)
    }
}

/// Counts since the last record, when the current interval began, and the
/// records not yet written.
pub struct StatisticsPersister {
    since_record: ContentCounts,
    interval_start: i64,
    buffer: Vec<PruneStats>,
}

impl StatisticsPersister {
    pub closed spec fn spec_since(&self) -> ContentCounts {
        self.since_record
    }

    pub closed spec fn spec_interval_start(&self) -> i64 {
        self.interval_start
    }

    pub closed spec fn spec_buffer(&self) -> Seq<PruneStats> {
        self.buffer@
    }

    /// Nothing counted or buffered; the first interval begins at `now`.
    pub fn new(now: i64) -> (p: StatisticsPersister)
        ensures
            p.spec_since() == ContentCounts::spec_zero(),
            p.spec_interval_start() == now,
            p.spec_buffer() == Seq::<PruneStats>::empty(),
    {
        StatisticsPersister { since_record: ContentCounts::zero(), interval_start: now, buffer: Vec::new() }
    }

    /// Take in one message's counts. When `record_due` (the record interval
    /// has elapsed), the counts so far become a record ending at `now` and a
    /// new interval begins. When `flush_due` and records are waiting, they
    /// are to be written.
    pub fn record_counts(&mut self, counts: &ContentCounts, record_due: bool, flush_due: bool, now: i64) -> (step:
        PersistStep)
        ensures
            ({
                let since = old(self).spec_since().spec_merge(*counts);
                if record_due {
                    &&& final(self).spec_since() == ContentCounts::spec_zero()
                    &&& final(self).spec_interval_start() == now
                    &&& final(self).spec_buffer() == old(self).spec_buffer().push(
                        record_of(since, old(self).spec_interval_start(), now),
                    )
                } else {
                    &&& final(self).spec_since() == since
                    &&& final(self).spec_interval_start() == old(self).spec_interval_start()
                    &&& final(self).spec_buffer() == old(self).spec_buffer()
                }
            }),
            step.recorded == record_due,
            step.flush == (flush_due && final(self).spec_buffer().len() > 0),
            ({
                let since = old(self).spec_since().spec_merge(*counts);
                let before = buffered_totals(old(self).spec_buffer());
                let after = buffered_totals(final(self).spec_buffer());
                &&& after.0 + final(self).spec_since().posts == before.0 + since.posts
                &&& after.1 + final(self).spec_since().images == before.1 + since.images
                &&& after.2 + final(self).spec_since().saved == before.2 + since.saved
            }),
    {
        self.since_record.add_assign(counts);
        if record_due {
            let record = PruneStats {
                interval_start: self.interval_start,
                interval_end: now,
                skeets_seen: self.since_record.posts,
                images_examined: self.since_record.images,
                images_saved: self.since_record.saved,
            };
            let ghost before = self.buffer@;
            self.buffer.push(record);
            self.since_record = ContentCounts::zero();
            self.interval_start = now;
            proof {
                assert(self.buffer@.drop_last() =~= before);
            }
        }
        PersistStep { recorded: record_due, flush: flush_due && self.buffer.len() > 0 }
    }

    /// The records waiting to be written, oldest first.
    pub fn pending(&self) -> (r: &Vec<PruneStats>)
        ensures
            r@ == self.spec_buffer(),
    {
        &self.buffer
    }

    /// Whether a flush has anything to write: with no records waiting, a
    /// flush does nothing.
    pub fn has_pending(&self) -> (b: bool)
        ensures
            b == (self.spec_buffer().len() > 0),
    {
        self.buffer.len() > 0
    }

    /// The write of the pending records finished. A successful write drops
    /// them and the flush clock restarts; after a failed one they stay, to
    /// ride the next flush, and the clock keeps running. Returns whether to
    /// restart the flush clock.
    pub fn finish_flush(&mut self, written: bool) -> (restart_clock: bool)
        ensures
            restart_clock == written,
            final(self).spec_buffer() == (if written {
                Seq::<PruneStats>::empty()
            } else {
                old(self).spec_buffer()
            }),
            final(self).spec_since() == old(self).spec_since(),
            final(self).spec_interval_start() == old(self).spec_interval_start(),
    {
        if written {
            self.buffer = Vec::new();
        }
        written
    }
}

} // verus!
