//! The parent-chain watcher's decisions: reading the anchored state root out
//! of an account notification, and when to reconnect or give up on a
//! silent connection.

use vstd::prelude::*;

verus! {

/// The bytes that `s` encodes in standard padded base64, if it is valid.
pub uninterp spec fn base64_decoded(s: Seq<char>) -> Option<Seq<u8>>;

pub open spec fn opt_bytes(o: Option<Vec<u8>>) -> Option<Seq<u8>> {
    match o {
        Some(v) => Some(v@),
        None => None,
    }
}

/// Relies on `base64::engine::general_purpose::STANDARD.decode`: the bytes
/// `s` encodes, or an error when `s` is not valid padded standard base64.
#[verifier::external_body]
fn decode_base64(s: &str) -> (r: Option<Vec<u8>>)
    ensures
        opt_bytes(r) == base64_decoded(s@),
{
    base64::Engine::decode(&base64::engine::general_purpose::STANDARD, s).ok()
}

/// The state root an account holds: its first 32 bytes.
pub open spec fn root_of_data(data: Seq<u8>) -> Option<Seq<u8>> {
    if data.len() >= 32 {
        Some(data.subrange(0, 32))
    } else {
        None
    }
}

pub open spec fn opt_root(o: Option<[u8; 32]>) -> Option<Seq<u8>> {
    match o {
        Some(r) => Some(r@),
        None => None,
    }
}

/// The anchored state root in an account's data: its first 32 bytes, when
/// it has that many.
pub fn state_root_from_account_data(data: &[u8]) -> (r: Option<[u8; 32]>)
    ensures
        opt_root(r) == root_of_data(data@),
{
    if data.len() < 32 {
        return None;
    }
    let mut a = [0u8; 32];
    let mut i: usize = 0;
    while i < 32
        invariant
            i <= 32,
            32 <= data@.len(),
            forall|k: int| 0 <= k < i ==> a@[k] == data@[k],
        decreases 32 - i,
    {
        a[i] = data[i];
        i = i + 1;
    }
    assert(a@ =~= data@.subrange(0, 32));
    Some(a)
}

/// The anchored state root in a notification's base64 account data.
pub fn state_root_from_notification(encoded: &str) -> (r: Option<[u8; 32]>)
    ensures
        opt_root(r) == match base64_decoded(encoded@) {
            Some(d) => root_of_data(d),
            None => None,
        },
{
    match decode_base64(encoded) {
        None => None,
        Some(data) => state_root_from_account_data(data.as_slice()),
    }
}

/// Seconds before the first reconnection attempt.
pub const INITIAL_RETRY_SECS: u64 = 1;

/// The longest wait between reconnection attempts, in seconds.
pub const MAX_RETRY_SECS: u64 = 60;

/// Seconds between keepalive pings.
pub const KEEPALIVE_SECS: u64 = 30;

/// Seconds without a pong after which the connection is torn down.
pub const PONG_TIMEOUT_SECS: u64 = 90;

/// The wait after the next failed attempt: twice the current one, capped.
pub fn next_retry_interval(current: u64) -> (r: u64)
    ensures
        r as int == if 2 * current as int <= MAX_RETRY_SECS as int { 2 * current as int } else { MAX_RETRY_SECS as int },
        current >= INITIAL_RETRY_SECS ==> INITIAL_RETRY_SECS <= r <= MAX_RETRY_SECS,
{
    if current > MAX_RETRY_SECS / 2 {
        MAX_RETRY_SECS
    } else {
        2 * current
    }
}

/// The wait after the `k`-th consecutive failed attempt: 1 s, then doubled
/// each time, capped.
pub open spec fn retry_schedule(k: nat) -> int
    decreases k,
{
    if k == 0 {
        INITIAL_RETRY_SECS as int
    } else if 2 * retry_schedule((k - 1) as nat) <= MAX_RETRY_SECS as int {
        2 * retry_schedule((k - 1) as nat)
    } else {
        MAX_RETRY_SECS as int
    }
}

/// Every wait of the schedule lies between the initial wait and the cap,
/// and each is what `next_retry_interval` makes of the one before: the
/// watcher always tries again, within a minute.
pub proof fn lemma_retry_schedule(k: nat)
    ensures
        INITIAL_RETRY_SECS as int <= retry_schedule(k) <= MAX_RETRY_SECS as int,
        retry_schedule(k + 1) == if 2 * retry_schedule(k) <= MAX_RETRY_SECS as int {
            2 * retry_schedule(k)
        } else {
            MAX_RETRY_SECS as int
        },
    decreases k,
{
    if k > 0 {
        lemma_retry_schedule((k - 1) as nat);
    }
}

/// The connection has been silent too long and must be torn down.
pub fn pong_overdue(seconds_since_pong: u64) -> (r: bool)
    ensures
        r == (seconds_since_pong > PONG_TIMEOUT_SECS),
{
    seconds_since_pong > PONG_TIMEOUT_SECS
}

} // verus!
