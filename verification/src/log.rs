//! The log: the totally ordered sequence of records, with gap-free ordinals
//! ascending from 1, grown by plain appends and by optimistic-concurrency
//! writes. The highest ordinal equals the log's length; a write is accepted
//! exactly when the writer's CC token is no older than that.

use crate::record::{Record, RecordView};
use vstd::prelude::*;

verus! {

/// The log invariant: the record at position `i` carries ordinal `i + 1`.
pub open spec fn log_wf(records: Seq<RecordView>) -> bool {
    forall|i: int| 0 <= i < records.len() ==> (#[trigger] records[i]).ordinal == i + 1
}

/// Whether a write with CC token `latest_known` is accepted against a log
/// whose highest ordinal is `latest`.
pub open spec fn spec_write_accepts(latest: int, latest_known: u64) -> bool {
    latest_known as int >= latest
}

/// Why a write failed.
#[derive(Debug)]
pub enum WriteError {
    /// The CC check failed; the payload is the log's highest ordinal.
    Conflict(u64),
    /// The underlying store failed.
    Sql(String),
    /// Snapshot production failed.
    Snapshot(String),
}

/// The CC check itself, shared by every store that holds the log: against
/// a highest ordinal `latest`, a write carrying `latest_known` is assigned
/// `latest + 1`, or rejected with `Conflict(latest)` when its token is
/// stale. The check and the insert must share one serializable unit.
pub fn cc_check(latest: u64, latest_known: u64) -> (r: Result<u64, WriteError>)
    requires
        latest < u64::MAX,
    ensures
        (r is Ok) == spec_write_accepts(latest as int, latest_known),
        match r {
            Ok(o) => o == latest + 1,
            Err(e) => e == WriteError::Conflict(latest),
        },
{
    if latest_known < latest {
        Err(WriteError::Conflict(latest))
    } else {
        Ok(latest + 1)
    }
}

/// The append-only log.
pub struct Log {
    records: Vec<Record>,
}

impl View for Log {
    type V = Seq<RecordView>;

    closed spec fn view(&self) -> Seq<RecordView> {
        Seq::new(self.records@.len() as nat, |i: int| self.records@[i]@)
    }
}

impl Log {
    pub open spec fn wf(&self) -> bool {
        log_wf(self@)
    }

    pub fn new() -> (log: Log)
        ensures
            log@ == Seq::<RecordView>::empty(),
            log.wf(),
    {
        let log = Log { records: Vec::new() };
        proof {
            assert(log@ =~= Seq::<RecordView>::empty());
        }
        log
    }

    /// The highest assigned ordinal; 0 for an empty log.
    pub fn latest_ordinal(&self) -> (o: u64)
        ensures
            o as int == self@.len(),
    {
        self.records.len() as u64
    }

    /// Appends a record under the next ordinal, unconditionally.
    pub fn append(&mut self, key: String, value: Vec<u8>) -> (o: u64)
        requires
            old(self).wf(),
            old(self)@.len() < u64::MAX,
        ensures
            final(self).wf(),
            o as int == old(self)@.len() + 1,
            final(self)@.len() == old(self)@.len() + 1,
            forall|i: int| 0 <= i < old(self)@.len() ==> final(self)@[i] == old(self)@[i],
            final(self)@.last().ordinal == o,
            final(self)@.last().key == key@,
            final(self)@.last().value == value@,
    {
        let o = self.records.len() as u64 + 1;
        let rec = Record::new(key, value, o);
        self.records.push(rec);
        proof {
            assert(self@.last() == self.records@.last()@);
            assert(forall|i: int|
                0 <= i < old(self)@.len() ==> #[trigger] self@[i] == old(self)@[i]);
        }
        o
    }

    /// The optimistic-concurrency write. The wire-level `ordinal` is
    /// advisory and ignored: the log itself assigns `latest + 1`.
    #[allow(unused_variables)]
    pub fn write(&mut self, ordinal: u64, key: String, value: Vec<u8>, latest_known: u64) -> (r:
        Result<u64, WriteError>)
        requires
            old(self).wf(),
            old(self)@.len() < u64::MAX,
        ensures
            final(self).wf(),
            (r is Ok) == spec_write_accepts(old(self)@.len() as int, latest_known),
            match r {
                Ok(o) => {
                    &&& o as int == old(self)@.len() + 1
                    &&& final(self)@.len() == old(self)@.len() + 1
                    &&& forall|i: int|
                        0 <= i < old(self)@.len() ==> final(self)@[i] == old(self)@[i]
                    &&& final(self)@.last().ordinal == o
                    &&& final(self)@.last().key == key@
                    &&& final(self)@.last().value == value@
                },
                Err(e) => {
                    &&& e == WriteError::Conflict(old(self)@.len() as u64)
                    &&& final(self)@ == old(self)@
                },
            },
    {
        let latest = self.records.len() as u64;
        match cc_check(latest, latest_known) {
            Ok(_) => {
                let o = self.append(key, value);
                Ok(o)
            },
            Err(e) => Err(e),
        }
    }

    /// The tail scan behind a subscription: every record with ordinal
    /// greater than `start`, in ascending ordinal order.
    pub fn records_from(&self, start: u64) -> (batch: Vec<Record>)
        ensures
            batch@.len() == if (start as int) < self@.len() {
                self@.len() - start as int
            } else {
                0
            },
            forall|j: int| 0 <= j < batch@.len() ==> (#[trigger] batch@[j])@ == self@[
                start as int + j],
    {
        let n = self.records.len();
        let mut batch: Vec<Record> = Vec::new();
        if start >= n as u64 {
            return batch;
        }
        let mut i: usize = start as usize;
        while i < n
            invariant
                start as int <= i <= n,
                n == self.records@.len(),
                n == self@.len(),
                batch@.len() == i - start as int,
                forall|j: int| 0 <= j < batch@.len() ==> (#[trigger] batch@[j])@ == self@[
                    start as int + j],
            decreases n - i,
        {
            batch.push(self.records[i].duplicate());
            i = i + 1;
        }
        batch
    }
}

/// Ordinal monotonicity: reading a well-formed log from any point yields
/// consecutive ordinals with no gaps; from the start, they are `1, 2, 3, ...`.
pub proof fn lemma_ordinal_monotonicity(records: Seq<RecordView>, start: int)
    requires
        log_wf(records),
        0 <= start <= records.len(),
    ensures
        forall|j: int|
            0 <= j < records.len() - start ==> (#[trigger] records.skip(start)[j]).ordinal
                == start + 1 + j,
{
    assert forall|j: int| 0 <= j < records.len() - start implies (#[trigger] records.skip(
        start,
    )[j]).ordinal == start + 1 + j by {
        assert(records.skip(start)[j] == records[start + j]);
    }
}

/// CC soundness: when two writers issue writes carrying the same CC token,
/// one no newer than the log's highest ordinal `latest`, at most one write
/// is accepted. Once the first is accepted the highest ordinal becomes
/// `latest + 1`, the second write conflicts, and the ordinal reported back
/// to it is no older than the shared token.
pub proof fn lemma_cc_soundness(latest: int, latest_known: u64)
    requires
        0 <= latest,
        latest_known as int <= latest,
    ensures
        spec_write_accepts(latest, latest_known) ==> !spec_write_accepts(
            latest + 1,
            latest_known,
        ),
        latest + 1 >= latest_known as int,
{
}

} // verus!
