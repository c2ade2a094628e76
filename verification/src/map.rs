//! The client map's write path: request building, and the optimistic-CC
//! retry policy. A mutation is sent with the client's current CC token;
//! a rejected response is retried with exponential backoff, starting at
//! 100 ms and doubling, and the call gives up after five conflicts.

use crate::error::Error;
use crate::keys::{encode_key, spec_encode_key};
use crate::server::WriteRequest;
use vstd::prelude::*;
use vstd::string::StrSliceExecFns;

verus! {

/// The number of conflicting responses after which a mutation gives up.
pub const MAX_RETRIES: u64 = 5;

/// The first backoff delay, in milliseconds; it doubles on every retry.
pub const INITIAL_BACKOFF_MS: u64 = 100;

/// A server address, kept as given.
pub struct ServerAddr(pub String);

impl From<String> for ServerAddr {
    fn from(s: String) -> (a: ServerAddr) {
        ServerAddr(s)
    }
}

impl vstd::std_specs::convert::FromSpecImpl<String> for ServerAddr {
    open spec fn obeys_from_spec() -> bool {
        true
    }

    open spec fn from_spec(s: String) -> ServerAddr {
        ServerAddr(s)
    }
}

impl From<&str> for ServerAddr {
    fn from(s: &str) -> (a: ServerAddr)
        ensures
            a.0@ == s@,
    {
        ServerAddr(s.to_owned())
    }
}

impl vstd::std_specs::convert::FromSpecImpl<&str> for ServerAddr {
    open spec fn obeys_from_spec() -> bool {
        false
    }

    open spec fn from_spec(s: &str) -> ServerAddr {
        arbitrary()
    }
}

/// Builds the on-wire mutation for a logical key and raw value bytes; an
/// empty value is a tombstone.
pub fn build_write_request(key: i64, value: Vec<u8>, ordinal: u64, latest_known: u64) -> (req:
    WriteRequest)
    ensures
        req.ordinal == ordinal,
        req.key@ == spec_encode_key(key as int),
        req.value@ == value@,
        req.latest_known == latest_known,
{
    WriteRequest { ordinal, key: encode_key(key), value, latest_known }
}

/// Builds the mutation an `insert` sends: the value's UTF-8 bytes.
pub fn build_insert_request(key: i64, value: &str, ordinal: u64, latest_known: u64) -> (req:
    WriteRequest)
    ensures
        req.ordinal == ordinal,
        req.key@ == spec_encode_key(key as int),
        req.value@ == vstd::utf8::encode_utf8(value@),
        req.latest_known == latest_known,
{
    build_write_request(key, value.as_bytes_vec(), ordinal, latest_known)
}

/// Builds the mutation a `remove` sends: an empty value, the tombstone.
pub fn build_remove_request(key: i64, ordinal: u64, latest_known: u64) -> (req: WriteRequest)
    ensures
        req.ordinal == ordinal,
        req.key@ == spec_encode_key(key as int),
        req.value@ == Seq::<u8>::empty(),
        req.latest_known == latest_known,
{
    build_write_request(key, Vec::new(), ordinal, latest_known)
}

/// The backoff delay before the `n`-th retry, in milliseconds.
pub open spec fn spec_backoff_ms(n: nat) -> nat
    decreases n,
{
    if n == 0 {
        100
    } else {
        2 * spec_backoff_ms((n - 1) as nat)
    }
}

/// What one response makes of an in-flight mutation.
#[derive(Clone, Copy, Debug, PartialEq, Eq, Structural)]
pub enum RetryDecision {
    /// The write was accepted; the call returns.
    Done,
    /// The write conflicted; retry after this many milliseconds.
    RetryAfter(u64),
    /// The retry budget is spent after this many conflicts; the call fails.
    GiveUp(u64),
}

/// The state of one mutation's retry loop.
pub struct RetryState {
    pub retries: u64,
    pub delay_ms: u64,
}

impl RetryState {
    /// The budget is never overspent, and while the call is still live the
    /// delay equals the backoff for the conflicts seen so far.
    pub open spec fn wf(&self) -> bool {
        self.retries <= MAX_RETRIES && (self.retries < MAX_RETRIES ==> self.delay_ms
            == spec_backoff_ms(self.retries as nat))
    }

    pub fn new() -> (s: RetryState)
        ensures
            s.retries == 0,
            s.delay_ms == INITIAL_BACKOFF_MS,
            s.wf(),
    {
        RetryState { retries: 0, delay_ms: INITIAL_BACKOFF_MS }
    }

    /// Advances the loop on one server response: acceptance finishes the
    /// call; a conflict either schedules a retry after the current delay,
    /// doubling it, or gives up once five conflicts have been seen.
    pub fn on_response(&mut self, accepted: bool) -> (d: RetryDecision)
        requires
            old(self).wf(),
            old(self).retries < MAX_RETRIES,
        ensures
            final(self).wf(),
            accepted ==> d == RetryDecision::Done && *final(self) == *old(self),
            !accepted ==> final(self).retries == old(self).retries + 1,
            !accepted && old(self).retries + 1 == MAX_RETRIES ==> d == RetryDecision::GiveUp(
                MAX_RETRIES,
            ),
            !accepted && old(self).retries + 1 < MAX_RETRIES ==> d == RetryDecision::RetryAfter(
                old(self).delay_ms,
            ) && final(self).delay_ms == 2 * old(self).delay_ms,
    {
        if accepted {
            return RetryDecision::Done;
        }
        self.retries = self.retries + 1;
        if self.retries >= MAX_RETRIES {
            return RetryDecision::GiveUp(self.retries);
        }
        let delay = self.delay_ms;
        proof {
            assert(spec_backoff_ms(self.retries as nat) == 2 * spec_backoff_ms(
                old(self).retries as nat,
            ));
            assert(spec_backoff_ms(0) == 100);
            assert(spec_backoff_ms(1) == 200);
            assert(spec_backoff_ms(2) == 400);
            assert(spec_backoff_ms(3) == 800);
        }
        self.delay_ms = self.delay_ms * 2;
        RetryDecision::RetryAfter(delay)
    }
}

/// What a mutation call returns when the server answers its requests with
/// the given `accepted` flags, `retries` conflicts having been seen before.
pub open spec fn spec_session(responses: Seq<bool>, retries: nat) -> Result<(), Error>
    decreases responses.len(),
{
    if responses.len() == 0 {
        Err(Error::ConnectionClosed)
    } else if responses[0] {
        Ok(())
    } else if retries + 1 >= MAX_RETRIES {
        Err(Error::Conflict(MAX_RETRIES as usize))
    } else {
        spec_session(responses.skip(1), retries + 1)
    }
}

/// Runs one mutation's retry loop against a given sequence of server
/// responses: the outcome of `insert` or `remove` when the server answers
/// each attempt with the corresponding flag. A missing response means the
/// stream closed early.
pub fn write_session_outcome(responses: &Vec<bool>) -> (r: Result<(), Error>)
    ensures
        r == spec_session(responses@, 0),
{
    let mut state = RetryState::new();
    let n = responses.len();
    proof {
        assert(responses@.skip(0) =~= responses@);
    }
    let mut i: usize = 0;
    while i < n
        invariant
            i <= n,
            n == responses@.len(),
            state.wf(),
            state.retries == i,
            i < MAX_RETRIES,
            spec_session(responses@, 0) == spec_session(responses@.skip(i as int), i as nat),
        decreases n - i,
    {
        let accepted = responses[i];
        proof {
            assert(responses@.skip(i as int)[0] == responses@[i as int]);
            assert(responses@.skip(i as int).skip(1) =~= responses@.skip(i + 1));
        }
        match state.on_response(accepted) {
            RetryDecision::Done => {
                return Ok(());
            },
            RetryDecision::GiveUp(retries) => {
                return Err(Error::Conflict(retries as usize));
            },
            RetryDecision::RetryAfter(_delay) => {},
        }
        i = i + 1;
    }
    proof {
        assert(responses@.skip(i as int).len() == 0);
    }
    Err(Error::ConnectionClosed)
}

/// Retry budget: a mutation fails with `Conflict(5)` exactly when the five
/// responses it saw were all conflicts; any acceptance among the first five
/// responses ends the call successfully, and a shorter session ends with
/// `ConnectionClosed` instead.
pub proof fn lemma_retry_budget(responses: Seq<bool>)
    ensures
        (spec_session(responses, 0) == Err::<(), Error>(Error::Conflict(5))) <==> (
        responses.len() >= 5 && !responses[0] && !responses[1] && !responses[2] && !responses[3]
            && !responses[4]),
{
    lemma_session_conflicts(responses, 0);
}

/// With `retries` conflicts already seen, the session ends in `Conflict(5)`
/// exactly when the remaining budget is spent on further conflicts.
proof fn lemma_session_conflicts(responses: Seq<bool>, retries: nat)
    requires
        retries < MAX_RETRIES,
    ensures
        (spec_session(responses, retries) == Err::<(), Error>(Error::Conflict(5))) <==> (
        responses.len() >= MAX_RETRIES - retries && forall|j: int|
            0 <= j < MAX_RETRIES - retries ==> !responses[j]),
    decreases MAX_RETRIES - retries,
{
    if responses.len() == 0 {
    } else if responses[0] {
    } else if retries + 1 >= MAX_RETRIES {
    } else {
        let rest = responses.skip(1);
        lemma_session_conflicts(rest, retries + 1);
        assert(spec_session(responses, retries) == spec_session(rest, retries + 1));
        assert forall|j: int| 0 <= j < rest.len() implies rest[j] == responses[j + 1] by {}
        if responses.len() >= MAX_RETRIES - retries && forall|j: int|
            0 <= j < MAX_RETRIES - retries ==> !responses[j] {
            assert forall|j: int| 0 <= j < MAX_RETRIES - (retries + 1) implies !rest[j] by {
                assert(!responses[j + 1]);
            }
        }
        if rest.len() >= MAX_RETRIES - (retries + 1) && forall|j: int|
            0 <= j < MAX_RETRIES - (retries + 1) ==> !rest[j] {
            assert forall|j: int| 0 <= j < MAX_RETRIES - retries implies !responses[j] by {
                if j > 0 {
                    assert(!rest[j - 1]);
                }
            }
        }
    }
}

} // verus!
