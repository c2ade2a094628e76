//! The wire message model and the server facade's response rules. The
//! facade never retries: a CC conflict is reported as a successful response
//! with `accepted` false, and a store failure with `assigned_ordinal` 0.

use crate::log::WriteError;
use crate::num::{spec_udec, u64_to_string};
use vstd::prelude::*;
use vstd::string::StringExecFns;

verus! {

/// Asks for every record with ordinal greater than `start_ordinal`.
pub struct SubscribeRequest {
    pub start_ordinal: u64,
}

/// One mutation. `ordinal` is advisory; the server assigns the real one.
pub struct WriteRequest {
    pub ordinal: u64,
    pub key: String,
    pub value: Vec<u8>,
    pub latest_known: u64,
}

/// The server's answer to one `WriteRequest`, in request order.
pub struct WriteResponse {
    pub accepted: bool,
    pub error: String,
    pub assigned_ordinal: u64,
}

/// Asks for the latest snapshot.
pub struct GetSnapshotRequest {}

/// The latest snapshot image; ordinal 0 and empty bytes mean none exists.
pub struct GetSnapshotResponse {
    pub snapshot_ordinal: u64,
    pub snapshot_data: Vec<u8>,
}

/// The message a conflicting write is answered with.
pub open spec fn spec_conflict_message(latest: u64) -> Seq<char> {
    "Conflict: latest ordinal is "@ + spec_udec(latest as nat)
}

/// The message a failed store operation is answered with.
pub open spec fn spec_sql_message(detail: Seq<char>) -> Seq<char> {
    "Database error: "@ + detail
}

/// The message a failed snapshot write is answered with.
pub open spec fn spec_snapshot_message(detail: Seq<char>) -> Seq<char> {
    "Snapshot error: "@ + detail
}

/// Turns a write outcome into the response sent back on the stream: an
/// accepted write reports its assigned ordinal; a conflict reports the
/// log's latest ordinal; a store or snapshot failure reports ordinal 0.
pub fn write_response_for(result: Result<u64, WriteError>) -> (resp: WriteResponse)
    ensures
        match result {
            Ok(o) => resp.accepted && resp.assigned_ordinal == o && resp.error@
                == Seq::<char>::empty(),
            Err(WriteError::Conflict(latest)) => !resp.accepted && resp.assigned_ordinal == latest
                && resp.error@ == spec_conflict_message(latest),
            Err(WriteError::Sql(detail)) => !resp.accepted && resp.assigned_ordinal == 0
                && resp.error@ == spec_sql_message(detail@),
            Err(WriteError::Snapshot(detail)) => !resp.accepted && resp.assigned_ordinal == 0
                && resp.error@ == spec_snapshot_message(detail@),
        },
{
    match result {
        Ok(ordinal) => WriteResponse {
            accepted: true,
            error: String::new(),
            assigned_ordinal: ordinal,
        },
        Err(WriteError::Conflict(latest)) => {
            let mut error = String::from_str("Conflict: latest ordinal is ");
            let shown = u64_to_string(latest);
            error.append(shown.as_str());
            WriteResponse { accepted: false, error, assigned_ordinal: latest }
        },
        Err(WriteError::Sql(detail)) => {
            let mut error = String::from_str("Database error: ");
            error.append(detail.as_str());
            WriteResponse { accepted: false, error, assigned_ordinal: 0 }
        },
        Err(WriteError::Snapshot(detail)) => {
            let mut error = String::from_str("Snapshot error: ");
            error.append(detail.as_str());
            WriteResponse { accepted: false, error, assigned_ordinal: 0 }
        },
    }
}

/// Turns the snapshot manager's answer into the response message: ordinal 0
/// and empty bytes stand for "no snapshot available".
pub fn snapshot_response_for(latest: Option<(u64, Vec<u8>)>) -> (resp: GetSnapshotResponse)
    ensures
        match latest {
            Some(found) => resp.snapshot_ordinal == found.0 && resp.snapshot_data@ == found.1@,
            None => resp.snapshot_ordinal == 0 && resp.snapshot_data@
                == Seq::<u8>::empty(),
        },
{
    match latest {
        Some(found) => GetSnapshotResponse { snapshot_ordinal: found.0, snapshot_data: found.1 },
        None => {
            let resp = GetSnapshotResponse { snapshot_ordinal: 0, snapshot_data: Vec::new() };
            resp
        },
    }
}

} // verus!
