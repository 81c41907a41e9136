//! The advisory lock a machine leaves on the remote while it syncs a game.
//!
//! It records the host and the moment it was taken.  A lock older than the
//! time-to-live is considered abandoned and may be taken over; a younger
//! lock of another host refuses the sync.  Storage cannot compare-and-swap,
//! so this is a courtesy between machines, not a mutex.

use crate::clock::{clock_error, clock_message, new_uuid, now_millis, uuid_text, v4_bytes, MAX_UTC_MS};
use crate::error::AppError;
use crate::paths::{remote_key_spec, to_remote_key};
use crate::text::{concat2, concat3, decimal, decimal_int, i64_to_string, owned, str_eq};
use vstd::prelude::*;

verus! {

/// Locks older than this (five minutes, in milliseconds) are stale.
pub const STALE_TTL_MS: i64 = 300000;

/// How often a held lock is refreshed: half the time-to-live.
pub const HEARTBEAT_MS: u64 = 150000;

/// What a lock records.
#[derive(Debug)]
pub struct RemoteLock {
    pub host: String,
    pub acquired_at: i64,
    /// Random text telling apart two locks of the same host.
    pub nonce: String,
}

/// Key of a game's lock.
pub fn lock_key(remote_prefix: &str) -> (k: String)
    ensures
        k@ == remote_key_spec(remote_prefix@, ".gsyncing/lock.json"@),
{
    to_remote_key(remote_prefix, ".gsyncing/lock.json")
}

/// Whether `existing` keeps `host` from syncing at `now`: it belongs to
/// another host and is neither from the future nor stale.
pub open spec fn lock_busy(existing: RemoteLock, now: int, host: Seq<char>) -> bool {
    let age = now - existing.acquired_at;
    &&& 0 <= age < STALE_TTL_MS
    &&& existing.host@ != host
}

/// The refusal shown when another machine holds the lock.
pub open spec fn busy_message(existing: RemoteLock, now: int) -> Seq<char> {
    let age = now - existing.acquired_at;
    "另一台机器「"@ + existing.host@ + "」正在同步 (已持有锁 "@ + decimal_int(age / 1000)
        + " 秒，TTL "@ + decimal(300) + " 秒)"@
}

/// Checks an existing lock before taking it over.  An age beyond the range
/// of `i64` is far past the time-to-live (or far in the future), so such a
/// lock never blocks.
pub fn check_lock(existing: &RemoteLock, now: i64, host: &str) -> (r: Result<(), AppError>)
    ensures
        r is Err <==> lock_busy(*existing, now as int, host@),
        r matches Err(e) ==> (e matches AppError::Other(m) && m@ == busy_message(
            *existing,
            now as int,
        )),
{
    let age = match now.checked_sub(existing.acquired_at) {
        Some(a) => a,
        None => {
            return Ok(());
        },
    };
    if age >= 0 && age < STALE_TTL_MS && !str_eq(existing.host.as_str(), host) {
        let secs = i64_to_string(age / 1000);
        let ttl = i64_to_string(STALE_TTL_MS / 1000);
        let a = concat3("另一台机器「", existing.host.as_str(), "」正在同步 (已持有锁 ");
        let b = concat3(a.as_str(), secs.as_str(), " 秒，TTL ");
        let c = concat3(b.as_str(), ttl.as_str(), " 秒)");
        proof {
            assert(STALE_TTL_MS / 1000 == 300);
            assert(decimal_int(300) == decimal(300));
        }
        return Err(AppError::Other(c));
    }
    Ok(())
}

/// Checks an existing lock against the current moment; fails as well
/// when the system clock is unusable.
pub fn check_lock_now(existing: &RemoteLock, host: &str) -> (r: Result<(), AppError>)
    ensures
        (r matches Err(e) && e matches AppError::Other(m) && m@ == clock_message()) || exists|
            now: int|
            0 <= now <= MAX_UTC_MS && {
                &&& (r is Err <==> #[trigger] lock_busy(*existing, now, host@))
                &&& r matches Err(e) ==> (e matches AppError::Other(m) && m@ == busy_message(
                    *existing,
                    now,
                ))
            },
{
    match now_millis() {
        Some(now) => check_lock(existing, now, host),
        None => Err(clock_error()),
    }
}

/// A new lock of `host`, taken now, with a fresh random nonce; fails when
/// the system clock or the random source does.
pub fn fresh_lock(host: String) -> (r: Result<RemoteLock, AppError>)
    ensures
        r matches Ok(l) ==> l.host == host && 0 <= l.acquired_at <= MAX_UTC_MS && exists|
            b: Seq<u8>,
        | b.len() == 16 && l.nonce@ == uuid_text(v4_bytes(b)),
        r matches Err(e) ==> e matches AppError::Other(m) && (m@ == clock_message() || exists|
            t: Seq<char>,
        | m@ == "random source: "@ + t),
{
    let now = match now_millis() {
        Some(n) => n,
        None => {
            return Err(clock_error());
        },
    };
    let nonce = match new_uuid() {
        Ok(n) => n,
        Err(e) => {
            return Err(e);
        },
    };
    Ok(new_lock(host, now, nonce))
}

/// The held lock, refreshed to the current moment; fails when the system
/// clock is unusable.
pub fn refresh_now(held: &RemoteLock) -> (r: Result<RemoteLock, AppError>)
    ensures
        r matches Ok(l) ==> l.host@ == held.host@ && l.nonce@ == held.nonce@ && 0 <= l.acquired_at
            <= MAX_UTC_MS,
        r matches Err(e) ==> e matches AppError::Other(m) && m@ == clock_message(),
{
    match now_millis() {
        Some(now) => Ok(refreshed(held, now)),
        None => Err(clock_error()),
    }
}

/// A lock for `host` taken at `now`.
pub fn new_lock(host: String, now: i64, nonce: String) -> (l: RemoteLock)
    ensures
        l.host == host,
        l.acquired_at == now,
        l.nonce == nonce,
{
    RemoteLock { host, acquired_at: now, nonce }
}

/// The held lock with its time moved to `now` (same host and nonce).
pub fn refreshed(held: &RemoteLock, now: i64) -> (l: RemoteLock)
    ensures
        l.host@ == held.host@,
        l.nonce@ == held.nonce@,
        l.acquired_at == now,
{
    RemoteLock { host: held.host.clone(), acquired_at: now, nonce: held.nonce.clone() }
}

/// Whether releasing deletes the stored lock: not when it now carries
/// another nonce (another machine took it over); otherwise, including when
/// nothing readable is stored, it is deleted.
pub fn should_delete_on_release(held: &RemoteLock, current: &Option<RemoteLock>) -> (b: bool)
    ensures
        b == match current {
            Some(c) => c.nonce@ == held.nonce@,
            None => true,
        },
{
    match current {
        Some(c) => str_eq(c.nonce.as_str(), held.nonce.as_str()),
        None => true,
    }
}

/// The host name used in locks: the platform's own host variable, else
/// `COMPUTERNAME`, else `HOSTNAME`, else `unknown`.
pub fn pick_host(own: Option<String>, computername: Option<String>, hostname: Option<String>) -> (r:
    String)
    ensures
        r@ == match own {
            Some(h) => h@,
            None => match computername {
                Some(h) => h@,
                None => match hostname {
                    Some(h) => h@,
                    None => "unknown"@,
                },
            },
        },
{
    match own {
        Some(h) => h,
        None => match computername {
            Some(h) => h,
            None => match hostname {
                Some(h) => h,
                None => owned("unknown"),
            },
        },
    }
}

/// A stale lock, or one from the future, never blocks; nor does a host's
/// own lock.
pub proof fn law_lock_blocks_only_fresh_foreign(existing: RemoteLock, now: int, host: Seq<char>)
    ensures
        now - existing.acquired_at >= STALE_TTL_MS ==> !lock_busy(existing, now, host),
        now < existing.acquired_at ==> !lock_busy(existing, now, host),
        existing.host@ == host ==> !lock_busy(existing, now, host),
{
}

/// A lock refreshed at every heartbeat keeps other hosts out: until the
/// next heartbeat is due it is still fresh, with time to spare.
pub proof fn law_heartbeat_keeps_lock(held: RemoteLock, now: int, host: Seq<char>)
    requires
        held.host@ != host,
        held.acquired_at <= now <= held.acquired_at + HEARTBEAT_MS,
    ensures
        lock_busy(held, now, host),
        2 * HEARTBEAT_MS == STALE_TTL_MS,
{
}

} // verus!
