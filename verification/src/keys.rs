//! The client key convention: a logical `i64` key is carried in the log as
//! the prefix `map:` followed by the key's decimal form. Records whose key
//! does not decode this way are outside the map's key space.

use crate::num::{
    i64_to_string, lemma_i64_round_trip, parse_i64, spec_idec, spec_parse_i64,
};
use vstd::prelude::*;

verus! {

/// The key-space prefix for map records.
pub open spec fn spec_prefix() -> Seq<char> {
    seq!['m', 'a', 'p', ':']
}

pub open spec fn spec_encode_key(k: int) -> Seq<char> {
    spec_prefix() + spec_idec(k)
}

/// `Some(k)` exactly when `s` is the prefix followed by a parseable decimal.
pub open spec fn spec_decode_key(s: Seq<char>) -> Option<i64> {
    if s.len() >= 4 && s.subrange(0, 4) == spec_prefix() {
        spec_parse_i64(s.skip(4))
    } else {
        None
    }
}

/// Builds the on-wire key for a logical key.
pub fn encode_key(k: i64) -> (s: String)
    ensures
        s@ == spec_encode_key(k as int),
{
    proof {
        reveal_strlit("map:");
    }
    let mut s = String::from_str("map:");
    let tail = i64_to_string(k);
    s.append(tail.as_str());
    proof {
        assert(s@ =~= spec_encode_key(k as int));
    }
    s
}

/// Recovers the logical key of an on-wire key, or `None` for keys outside
/// the map's key space.
pub fn decode_key(s: &str) -> (r: Option<i64>)
    ensures
        r == spec_decode_key(s@),
{
    let n = s.unicode_len();
    if n < 4 {
        return None;
    }
    if s.get_char(0) != 'm' || s.get_char(1) != 'a' || s.get_char(2) != 'p' || s.get_char(3)
        != ':' {
        proof {
            assert(s@.subrange(0, 4)[0] == s@[0]);
            assert(s@.subrange(0, 4)[1] == s@[1]);
            assert(s@.subrange(0, 4)[2] == s@[2]);
            assert(s@.subrange(0, 4)[3] == s@[3]);
        }
        return None;
    }
    proof {
        assert(s@.subrange(0, 4) =~= spec_prefix());
        assert(s@.subrange(4, n as int) =~= s@.skip(4));
    }
    let tail = s.substring_char(4, n);
    parse_i64(tail)
}

/// Encoding a key and decoding the result gives the key back.
pub proof fn lemma_key_round_trip(k: i64)
    ensures
        spec_decode_key(spec_encode_key(k as int)) == Some(k),
{
    let s = spec_encode_key(k as int);
    assert(s.subrange(0, 4) =~= spec_prefix());
    assert(s.skip(4) =~= spec_idec(k as int));
    lemma_i64_round_trip(k);
}

} // verus!
