//! The client's synchronization logic: loading a snapshot image, filtering
//! it down to the map's key space, and applying subscribed records to the
//! cache, tombstones removing and other values inserting.

use crate::cache::{entry_pairs_view, Cache};
use crate::codec::{
    decode_entries, lemma_decode_encode, raw_entries_wf, rec_pairs_view, records_wf, spec_decode,
    spec_encode_records, spec_utf8_pairs, CodecError,
};
use crate::keys::{decode_key, spec_decode_key};
use crate::record::{Record, RecordView};
use crate::text::{lossy_string, spec_lossy};
use vstd::prelude::*;

verus! {

broadcast use vstd::utf8::encode_utf8_valid_utf8, vstd::utf8::encode_utf8_decode_utf8;

/// Reads snapshot images into record lists.
pub struct SnapshotLoader;

/// What loading an image yields: the decoded records with keys shown as
/// text, or the decode error.
pub open spec fn spec_load(b: Seq<u8>) -> Result<Seq<(Seq<char>, Seq<u8>)>, CodecError> {
    match spec_decode(b) {
        Ok(es) => Ok(Seq::new(es.len(), |i: int| (spec_lossy(es[i].0), es[i].1))),
        Err(e) => Err(e),
    }
}

impl SnapshotLoader {
    /// Decodes a binary snapshot image into `(key, value)` records.
    pub fn load_from_bytes(data: &[u8]) -> (r: Result<Vec<(String, Vec<u8>)>, CodecError>)
        ensures
            match r {
                Ok(v) => spec_load(data@) == Ok::<Seq<(Seq<char>, Seq<u8>)>, CodecError>(
                    rec_pairs_view(v@),
                ),
                Err(e) => spec_load(data@) == Err::<Seq<(Seq<char>, Seq<u8>)>, CodecError>(e),
            },
    {
        let raw = match decode_entries(data) {
            Ok(raw) => raw,
            Err(e) => {
                return Err(e);
            },
        };
        let ghost es = crate::codec::raw_pairs_view(raw@);
        let mut out: Vec<(String, Vec<u8>)> = Vec::new();
        let n = raw.len();
        let mut i: usize = 0;
        while i < n
            invariant
                i <= n,
                n == raw@.len(),
                es == crate::codec::raw_pairs_view(raw@),
                rec_pairs_view(out@) =~= Seq::new(i as nat, |j: int| (spec_lossy(es[j].0), es[j].1)),
            decreases n - i,
        {
            let key_text = lossy_string(raw[i].0.as_slice());
            let value = vstd::slice::slice_to_vec(raw[i].1.as_slice());
            proof {
                assert(key_text@ == spec_lossy(es[i as int].0));
                assert(value@ == es[i as int].1);
            }
            let ghost prev = out@;
            out.push((key_text, value));
            proof {
                assert(rec_pairs_view(prev).len() == prev.len());
                assert(rec_pairs_view(prev).len() == Seq::new(
                    i as nat,
                    |j2: int| (spec_lossy(es[j2].0), es[j2].1),
                ).len());
                assert(prev.len() == i as int);
                assert(out@ == prev.push((key_text, value)));
                let goal = Seq::new((i + 1) as nat, |j: int| (spec_lossy(es[j].0), es[j].1));
                assert forall|j: int| 0 <= j < i + 1 implies rec_pairs_view(out@)[j] == goal[j] by {
                    assert(rec_pairs_view(out@)[j] == (out@[j].0@, out@[j].1@));
                    if j < i {
                        assert(out@[j] == prev[j]);
                        assert(rec_pairs_view(prev)[j] == (prev[j].0@, prev[j].1@));
                        assert(rec_pairs_view(prev)[j] == Seq::new(
                            i as nat,
                            |j2: int| (spec_lossy(es[j2].0), es[j2].1),
                        )[j]);
                    } else {
                        assert(out@[j] == (key_text, value));
                    }
                }
                assert(rec_pairs_view(out@) =~= goal);
            }
            i = i + 1;
        }
        proof {
            assert(rec_pairs_view(out@) =~= Seq::new(
                es.len(),
                |j: int| (spec_lossy(es[j].0), es[j].1),
            ));
        }
        Ok(out)
    }
}

/// Snapshot round-trip: encoding any record list within the format's limits
/// and loading the image back yields exactly that list.
pub proof fn lemma_snapshot_round_trip(rs: Seq<(Seq<char>, Seq<u8>)>)
    requires
        records_wf(rs),
        rs.len() < 0x1_0000_0000,
    ensures
        spec_load(spec_encode_records(rs)) == Ok::<Seq<(Seq<char>, Seq<u8>)>, CodecError>(rs),
{
    let up = spec_utf8_pairs(rs);
    assert(raw_entries_wf(up));
    lemma_decode_encode(up);
    assert(Seq::new(up.len(), |i: int| (spec_lossy(up[i].0), up[i].1)) =~= rs) by {
        assert forall|i: int| 0 <= i < rs.len() implies spec_lossy(up[i].0) == rs[i].0 by {
            assert(up[i].0 == vstd::utf8::encode_utf8(rs[i].0));
        }
    }
}

/// The entries a snapshot contributes to the cache: records whose key
/// decodes into the map's key space and whose value is nonempty, in order.
pub open spec fn spec_bootstrap(rs: Seq<(Seq<char>, Seq<u8>)>) -> Seq<(i64, Seq<char>)>
    decreases rs.len(),
{
    if rs.len() == 0 {
        Seq::empty()
    } else {
        let rest = spec_bootstrap(rs.drop_last());
        match spec_decode_key(rs.last().0) {
            Some(k) => if spec_lossy(rs.last().1).len() > 0 {
                rest.push((k, spec_lossy(rs.last().1)))
            } else {
                rest
            },
            None => rest,
        }
    }
}

/// Filters loaded snapshot records down to cache entries: keys outside the
/// map's key space and tombstoned values are dropped.
pub fn bootstrap_entries(records: &Vec<(String, Vec<u8>)>) -> (out: Vec<(i64, String)>)
    ensures
        entry_pairs_view(out@) == spec_bootstrap(rec_pairs_view(records@)),
{
    let ghost rv = rec_pairs_view(records@);
    let mut out: Vec<(i64, String)> = Vec::new();
    let n = records.len();
    let mut i: usize = 0;
    while i < n
        invariant
            i <= n,
            n == records@.len(),
            rv == rec_pairs_view(records@),
            entry_pairs_view(out@) == spec_bootstrap(rv.take(i as int)),
        decreases n - i,
    {
        proof {
            assert(rv.take(i + 1).drop_last() =~= rv.take(i as int));
            assert(rv.take(i + 1).last() == rv[i as int]);
        }
        let parsed = decode_key(records[i].0.as_str());
        match parsed {
            Some(k) => {
                let value_text = lossy_string(records[i].1.as_slice());
                if value_text.as_str().is_empty() {
                    // A defensively filtered tombstone: not retained.
                } else {
                    out.push((k, value_text));
                    proof {
                        assert(entry_pairs_view(out@) =~= spec_bootstrap(rv.take(i as int)).push(
                            (k, spec_lossy(rv[i as int].1)),
                        ));
                    }
                }
            },
            None => {},
        }
        i = i + 1;
    }
    proof {
        assert(rv.take(n as int) =~= rv);
    }
    out
}

/// How one record changes the cache: tombstones remove their key, other
/// map-space records insert their value as text, records outside the key
/// space change nothing.
pub open spec fn spec_apply_record(m: Map<i64, Seq<char>>, rec: RecordView) -> Map<
    i64,
    Seq<char>,
> {
    match spec_decode_key(rec.key) {
        Some(k) => if rec.value.len() == 0 {
            m.remove(k)
        } else {
            m.insert(k, spec_lossy(rec.value))
        },
        None => m,
    }
}

/// A record sequence applied in order, first to last.
pub open spec fn spec_apply_all(m: Map<i64, Seq<char>>, records: Seq<RecordView>) -> Map<
    i64,
    Seq<char>,
>
    decreases records.len(),
{
    if records.len() == 0 {
        m
    } else {
        spec_apply_record(spec_apply_all(m, records.drop_last()), records.last())
    }
}

/// Applies one subscribed record: the cache is updated when the key decodes
/// into the map's key space, and both counters advance to the record's
/// ordinal if it is higher, never decreasing.
pub fn process_record(cache: &mut Cache, last_sync: &mut u64, latest_known: &mut u64, record:
    &Record)
    ensures
        final(cache)@ == spec_apply_record(old(cache)@, record@),
        spec_decode_key(record@.key) is Some ==> {
            &&& *final(last_sync) == if record@.ordinal > *old(last_sync) {
                record@.ordinal
            } else {
                *old(last_sync)
            }
            &&& *final(latest_known) == if record@.ordinal > *old(latest_known) {
                record@.ordinal
            } else {
                *old(latest_known)
            }
        },
        spec_decode_key(record@.key) is None ==> *final(last_sync) == *old(last_sync)
            && *final(latest_known) == *old(latest_known),
{
    match decode_key(record.key.as_str()) {
        Some(k) => {
            if record.ordinal > *last_sync {
                *last_sync = record.ordinal;
            }
            if record.ordinal > *latest_known {
                *latest_known = record.ordinal;
            }
            if record.value.len() == 0 {
                cache.remove(&k);
            } else {
                let value_text = lossy_string(record.value.as_slice());
                cache.insert(k, value_text);
            }
        },
        None => {},
    }
}

/// The mathematical contents of a batch of records.
pub open spec fn records_view(rs: Seq<Record>) -> Seq<RecordView> {
    Seq::new(rs.len(), |i: int| rs[i]@)
}

/// A counter that starts at `c` and is advanced to each map-space record's
/// ordinal when that is higher: the effect of `fetch_max` over a batch.
pub open spec fn spec_max_seen(c: u64, records: Seq<RecordView>) -> u64
    decreases records.len(),
{
    if records.len() == 0 {
        c
    } else {
        let before = spec_max_seen(c, records.drop_last());
        if spec_decode_key(records.last().key) is Some && records.last().ordinal > before {
            records.last().ordinal
        } else {
            before
        }
    }
}

/// Applies a batch of subscribed records in order.
pub fn replay(cache: &mut Cache, last_sync: &mut u64, latest_known: &mut u64, records: &Vec<
    Record,
>)
    ensures
        final(cache)@ == spec_apply_all(old(cache)@, records_view(records@)),
        *final(last_sync) == spec_max_seen(*old(last_sync), records_view(records@)),
        *final(latest_known) == spec_max_seen(*old(latest_known), records_view(records@)),
{
    let ghost rv = records_view(records@);
    let n = records.len();
    let mut i: usize = 0;
    while i < n
        invariant
            i <= n,
            n == records@.len(),
            rv == records_view(records@),
            cache@ == spec_apply_all(old(cache)@, rv.take(i as int)),
            *last_sync == spec_max_seen(*old(last_sync), rv.take(i as int)),
            *latest_known == spec_max_seen(*old(latest_known), rv.take(i as int)),
        decreases n - i,
    {
        process_record(cache, last_sync, latest_known, &records[i]);
        proof {
            assert(rv.take(i + 1).drop_last() =~= rv.take(i as int));
            assert(rv.take(i + 1).last() == rv[i as int]);
        }
        i = i + 1;
    }
    proof {
        assert(rv.take(n as int) =~= rv);
    }
}

/// The record at `i` is the last one in `records` whose key decodes to `k`,
/// so it decides what the replayed cache holds for `k`.
proof fn lemma_last_write_decides(
    m: Map<i64, Seq<char>>,
    records: Seq<RecordView>,
    i: int,
    k: i64,
)
    requires
        0 <= i < records.len(),
        spec_decode_key(records[i].key) == Some(k),
        forall|j: int| i < j < records.len() ==> spec_decode_key((#[trigger] records[j]).key)
            != Some(k),
    ensures
        records[i].value.len() == 0 ==> !spec_apply_all(m, records).contains_key(k),
        records[i].value.len() > 0 ==> spec_apply_all(m, records).contains_key(k)
            && spec_apply_all(m, records)[k] == spec_lossy(records[i].value),
    decreases records.len(),
{
    if i == records.len() - 1 {
        assert(records.drop_last() =~= records.take(records.len() - 1));
        assert(records.last() == records[i]);
    } else {
        let prefix = records.drop_last();
        assert(prefix[i] == records[i]);
        assert(forall|j: int| i < j < prefix.len() ==> spec_decode_key(
            (#[trigger] prefix[j]).key,
        ) != Some(k));
        lemma_last_write_decides(m, prefix, i, k);
        let before = spec_apply_all(m, prefix);
        let last = records.last();
        assert(spec_decode_key(last.key) != Some(k));
        match spec_decode_key(last.key) {
            Some(k2) => {
                assert(k2 != k);
                assert(spec_apply_all(m, records).contains_key(k) == before.contains_key(k));
                if before.contains_key(k) {
                    assert(spec_apply_all(m, records)[k] == before[k]);
                }
            },
            None => {},
        }
    }
}

/// Eventual consistency, replay form: once a client has applied every
/// record of the log through the latest write of the map-space key `k`, and
/// that write carries a nonempty value, the cache holds exactly that value
/// for `k`, shown as text.
pub proof fn lemma_eventual_consistency(
    m: Map<i64, Seq<char>>,
    records: Seq<RecordView>,
    i: int,
    k: i64,
)
    requires
        0 <= i < records.len(),
        spec_decode_key(records[i].key) == Some(k),
        records[i].value.len() > 0,
        forall|j: int| i < j < records.len() ==> spec_decode_key((#[trigger] records[j]).key)
            != Some(k),
    ensures
        spec_apply_all(m, records).contains_key(k),
        spec_apply_all(m, records)[k] == spec_lossy(records[i].value),
{
    lemma_last_write_decides(m, records, i, k);
}

/// Tombstone semantics, replay form: once a client has applied every record
/// of the log through an accepted `remove` of key `k` — a record with an
/// empty value — the cache no longer contains `k`.
pub proof fn lemma_tombstone_semantics(
    m: Map<i64, Seq<char>>,
    records: Seq<RecordView>,
    i: int,
    k: i64,
)
    requires
        0 <= i < records.len(),
        spec_decode_key(records[i].key) == Some(k),
        records[i].value.len() == 0,
        forall|j: int| i < j < records.len() ==> spec_decode_key((#[trigger] records[j]).key)
            != Some(k),
    ensures
        !spec_apply_all(m, records).contains_key(k),
{
    lemma_last_write_decides(m, records, i, k);
}

} // verus!
