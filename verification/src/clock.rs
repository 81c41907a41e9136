//! Wall-clock time (the system clock, rendered by `chrono`) and random
//! identifiers (`uuid` built from `getrandom` bytes).  Reading the clock and
//! the random source can fail; the functions that do say so in their result.

use crate::error::AppError;
use crate::text::{concat2, concat3, owned, u64_to_string, decimal};
use vstd::prelude::*;

verus! {

/// Last millisecond `chrono` can represent (end of year 262142).
pub const MAX_UTC_MS: i64 = 8210266876799999;

/// `std::time::SystemTime`, a reading of the system clock.
#[verifier::external_type_specification]
#[verifier::external_body]
pub struct ExSystemTime(std::time::SystemTime);

/// `SystemTime::now`: the system clock's current reading.  What it reads
/// depends on the clock; nothing is claimed.
#[verifier::external_body]
fn system_now() -> std::time::SystemTime {
    std::time::SystemTime::now()
}

/// `SystemTime::duration_since(UNIX_EPOCH)`: the time elapsed since 1970,
/// `None` when the reading is earlier.  The reading is opaque; nothing is
/// claimed.
#[verifier::external_body]
fn since_epoch(t: &std::time::SystemTime) -> Option<core::time::Duration> {
    t.duration_since(std::time::UNIX_EPOCH).ok()
}

/// `Duration::as_millis`: the whole milliseconds of a duration.  The
/// duration is opaque; nothing is claimed.
#[verifier::external_body]
fn whole_millis(d: &core::time::Duration) -> u128 {
    d.as_millis()
}

/// The text of the error for an unusable system clock.
pub open spec fn clock_message() -> Seq<char> {
    "system clock is set before 1970 or beyond year 262142"@
}

/// The error for an unusable system clock.
pub fn clock_error() -> (e: AppError)
    ensures
        e matches AppError::Other(m) && m@ == clock_message(),
{
    AppError::Other(owned("system clock is set before 1970 or beyond year 262142"))
}

/// The current moment in milliseconds since 1970, or `None` when the
/// system clock reads a time before 1970 or past what `chrono` renders.
pub(crate) fn now_millis() -> (r: Option<i64>)
    ensures
        r matches Some(ms) ==> 0 <= ms <= MAX_UTC_MS,
{
    let t = system_now();
    match since_epoch(&t) {
        None => None,
        Some(d) => {
            let ms = whole_millis(&d);
            if ms <= 8210266876799999u128 {
                Some(ms as i64)
            } else {
                None
            }
        },
    }
}

/// The text `chrono` gives for the UTC instant `ms` (milliseconds since the
/// epoch) in the format `fmt`, or the empty text for an instant it cannot
/// represent.
pub uninterp spec fn utc_format_text(ms: int, fmt: Seq<char>) -> Seq<char>;

/// The formats instants are rendered in: the compact stamp of conflict
/// copies and the time column of the log file.
pub open spec fn known_format(fmt: Seq<char>) -> bool {
    fmt == "%Y%m%d-%H%M%S"@ || fmt == "%Y-%m-%d %H:%M:%S%.3f"@
}

/// `chrono::DateTime::from_timestamp_millis` followed by `format(fmt)`,
/// rendered to text; empty when the instant cannot be represented.  The
/// format is one of the valid ones used here (an invalid format would make
/// the rendering panic).  The text is named, not spelled out.
#[verifier::external_body]
pub(crate) fn format_utc(ms: i64, fmt: &str) -> (s: String)
    requires
        known_format(fmt@),
    ensures
        s@ == utc_format_text(ms as int, fmt@),
{
    match chrono::DateTime::from_timestamp_millis(ms) {
        Some(d) => d.format(fmt).to_string(),
        None => String::new(),
    }
}

/// The UTC date and time of a millisecond timestamp as `yyyymmdd-hhmmss`.
pub open spec fn utc_compact(ms: int) -> Seq<char> {
    utc_format_text(ms, "%Y%m%d-%H%M%S"@)
}

/// `getrandom::fill`: fills the buffer from the system's random source,
/// or returns the error's display text.  The bytes depend on chance; only
/// that the buffer keeps its length is claimed.
#[verifier::external_body]
fn fill_random(buf: &mut Vec<u8>) -> (r: Result<(), String>)
    ensures
        final(buf)@.len() == old(buf)@.len(),
{
    getrandom::fill(buf.as_mut_slice()).map_err(|e| format!("{e}"))
}

/// The 16 bytes of a version-4 UUID made from random bytes: the version
/// nibble set to 4 and the variant bits to `10`.
pub open spec fn v4_bytes(b: Seq<u8>) -> Seq<u8> {
    b.update(6, (b[6] & 0x0f) | 0x40).update(8, (b[8] & 0x3f) | 0x80)
}

/// The hyphenated lowercase text of a UUID's bytes: hex digits in groups of
/// 8, 4, 4, 4 and 12.
pub open spec fn uuid_text(b: Seq<u8>) -> Seq<char> {
    let h = crate::digest::hex_lower(b);
    h.subrange(0, 8) + "-"@ + h.subrange(8, 12) + "-"@ + h.subrange(12, 16) + "-"@ + h.subrange(
        16,
        20,
    ) + "-"@ + h.subrange(20, 32)
}

/// `uuid::Builder::from_random_bytes(bytes).into_uuid()` in its display
/// form: the bytes with version 4 and the RFC 4122 variant set, as
/// lowercase hyphenated hex (uuid's `fmt.rs`).
#[verifier::external_body]
fn uuid_v4_text(bytes: &Vec<u8>) -> (s: String)
    requires
        bytes@.len() == 16,
    ensures
        s@ == uuid_text(v4_bytes(bytes@)),
{
    let mut b = [0u8; 16];
    b.copy_from_slice(bytes.as_slice());
    uuid::Builder::from_random_bytes(b).into_uuid().to_string()
}

/// A fresh random identifier: a version-4 UUID made from 16 bytes of the
/// system's random source, in its hyphenated text form; fails when the
/// random source does, with `random source: ` and its error.
pub(crate) fn new_uuid() -> (r: Result<String, AppError>)
    ensures
        r matches Ok(s) ==> exists|b: Seq<u8>| b.len() == 16 && s@ == uuid_text(v4_bytes(b)),
        r matches Err(e) ==> e matches AppError::Other(m) && exists|t: Seq<char>|
            m@ == "random source: "@ + t,
{
    let mut bytes: Vec<u8> = vec![0u8, 0, 0, 0, 0, 0, 0, 0, 0, 0, 0, 0, 0, 0, 0, 0];
    match fill_random(&mut bytes) {
        Ok(()) => Ok(uuid_v4_text(&bytes)),
        Err(t) => Err(AppError::Other(concat2("random source: ", t.as_str()))),
    }
}

/// `{:03}`: at least three digits, zero-padded.
pub open spec fn pad3(n: nat) -> Seq<char> {
    if n < 10 {
        "00"@ + decimal(n)
    } else if n < 100 {
        "0"@ + decimal(n)
    } else {
        decimal(n)
    }
}

pub fn pad3_string(n: u64) -> (s: String)
    ensures
        s@ == pad3(n as nat),
{
    let d = u64_to_string(n);
    if n < 10 {
        crate::text::concat2("00", d.as_str())
    } else if n < 100 {
        crate::text::concat2("0", d.as_str())
    } else {
        d
    }
}

/// The suffix given to both copies of a conflicting file:
/// `<yyyymmdd-hhmmss>-<millis, 3 digits>` of the moment `ms`.
pub open spec fn conflict_suffix_spec(ms: int) -> Seq<char> {
    utc_compact(ms) + "-"@ + pad3((ms % 1000) as nat)
}

/// The conflict suffix for the moment `ms`.
pub fn conflict_suffix_at(ms: i64) -> (s: String)
    requires
        0 <= ms <= MAX_UTC_MS,
    ensures
        s@ == conflict_suffix_spec(ms as int),
{
    let date = format_utc(ms, "%Y%m%d-%H%M%S");
    let millis = pad3_string((ms % 1000) as u64);
    concat3(date.as_str(), "-", millis.as_str())
}

/// The conflict suffix for the current moment; fails when the system
/// clock is unusable.
pub fn conflict_suffix() -> (r: Result<String, AppError>)
    ensures
        r matches Ok(s) ==> exists|ms: int| 0 <= ms <= MAX_UTC_MS && s@ == conflict_suffix_spec(ms),
        r matches Err(e) ==> e matches AppError::Other(m) && m@ == clock_message(),
{
    match now_millis() {
        Some(now) => Ok(conflict_suffix_at(now)),
        None => Err(clock_error()),
    }
}

} // verus!
