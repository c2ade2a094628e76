//! The record model: one immutable entry of the append-only log.

use vstd::prelude::*;

verus! {

/// The mathematical content of a record.
pub struct RecordView {
    pub ordinal: u64,
    pub key: Seq<char>,
    pub value: Seq<u8>,
    pub timestamp: int,
}

/// One log record. `ordinal` is strictly positive and assigned by the
/// server; `key` is UTF-8 text; `value` is an opaque byte string, where an
/// empty value is a tombstone for the key; `timestamp` is wall-clock
/// milliseconds since the Unix epoch, assigned at append time.
#[derive(Debug)]
pub struct Record {
    pub ordinal: u64,
    pub key: String,
    pub value: Vec<u8>,
    pub timestamp: i64,
}

impl View for Record {
    type V = RecordView;

    open spec fn view(&self) -> RecordView {
        RecordView {
            ordinal: self.ordinal,
            key: self.key@,
            value: self.value@,
            timestamp: self.timestamp as int,
        }
    }
}

/// Relies on chrono's `Utc::now` and `DateTime::timestamp_millis`: the wall
/// clock read as milliseconds since the Unix epoch. Nothing is promised of
/// the value; callers treat it as opaque.
#[verifier::external_body]
pub fn now_millis() -> (t: i64) {
    chrono::Utc::now().timestamp_millis()
}

impl Record {
    /// Builds a record stamped with the current wall-clock time.
    pub fn new(key: String, value: Vec<u8>, ordinal: u64) -> (r: Record)
        ensures
            r@.ordinal == ordinal,
            r@.key == key@,
            r@.value == value@,
    {
        let timestamp = now_millis();
        Record { ordinal, key, value, timestamp }
    }

    /// An exact copy, content for content.
    pub fn duplicate(&self) -> (r: Record)
        ensures
            r@ == self@,
    {
        Record {
            ordinal: self.ordinal,
            key: self.key.clone(),
            value: vstd::slice::slice_to_vec(self.value.as_slice()),
            timestamp: self.timestamp,
        }
    }
}

} // verus!
