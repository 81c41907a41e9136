//! Which storage failures are worth retrying, and the backoff schedule of a
//! retried operation.

use crate::error::{AppError, IoKind};
use crate::text::{ascii_lowercase, contains_str, seq_contains_sub, to_ascii_lowercase};
use vstd::prelude::*;

verus! {

broadcast use vstd::string::group_string_axioms;

/// Markers of errors that no retry can fix (authorisation, missing objects,
/// bad requests), looked for in the lowercased error text.
pub open spec fn permanent_markers() -> Seq<Seq<char>> {
    seq![
        "401"@,
        "403"@,
        "404"@,
        "unauthorized"@,
        "forbidden"@,
        "not found"@,
        "nosuchkey"@,
        "nosuchbucket"@,
        "accessdenied"@,
        "invalidaccesskeyid"@,
        "signaturemismatch"@,
        "invalidargument"@,
    ]
}

/// Whether the lowercased text holds a permanent-failure marker.
pub open spec fn has_permanent_marker(text: Seq<char>) -> bool {
    exists|i: int| 0 <= i < permanent_markers().len() && seq_contains_sub(
        ascii_lowercase(text),
        #[trigger] permanent_markers()[i],
    )
}

/// I/O failures that retrying cannot rescue.
pub open spec fn permanent_io(k: IoKind) -> bool {
    k == IoKind::NotFound || k == IoKind::PermissionDenied || k == IoKind::InvalidInput || k
        == IoKind::InvalidData || k == IoKind::AlreadyExists
}

/// Whether an error is transient (network trouble, 5xx) rather than
/// authoritative (4xx, missing configuration, bad paths).
pub open spec fn retryable(e: AppError) -> bool {
    &&& !has_permanent_marker(e.spec_message())
    &&& !(e matches AppError::Io { kind, .. } && permanent_io(kind))
    &&& !(e is Config || e is BackendNotFound || e is GameNotFound || e is Path)
}

/// Classifies an error as worth retrying or not.
pub fn is_retryable(err: &AppError) -> (r: bool)
    ensures
        r == retryable(*err),
{
    let text = err.message();
    let lower = to_ascii_lowercase(text.as_str());
    let markers: [&str; 12] = [
        "401",
        "403",
        "404",
        "unauthorized",
        "forbidden",
        "not found",
        "nosuchkey",
        "nosuchbucket",
        "accessdenied",
        "invalidaccesskeyid",
        "signaturemismatch",
        "invalidargument",
    ];
    proof {
        reveal_strlit("401");
        reveal_strlit("403");
        reveal_strlit("404");
        reveal_strlit("unauthorized");
        reveal_strlit("forbidden");
        reveal_strlit("not found");
        reveal_strlit("nosuchkey");
        reveal_strlit("nosuchbucket");
        reveal_strlit("accessdenied");
        reveal_strlit("invalidaccesskeyid");
        reveal_strlit("signaturemismatch");
        reveal_strlit("invalidargument");
    }
    assert(forall|i: int| 0 <= i < 12 ==> markers@[i]@ == #[trigger] permanent_markers()[i]);
    let mut i: usize = 0;
    while i < 12
        invariant
            i <= 12,
            lower@ == ascii_lowercase(err.spec_message()),
            forall|k: int| 0 <= k < 12 ==> markers@[k]@ == #[trigger] permanent_markers()[k],
            forall|k: int| 0 <= k < i ==> !seq_contains_sub(lower@, #[trigger] permanent_markers()[k]),
        decreases 12 - i,
    {
        if contains_str(lower.as_str(), markers[i]) {
            assert(seq_contains_sub(ascii_lowercase(err.spec_message()), permanent_markers()[i as int]));
            return false;
        }
        i = i + 1;
    }
    match err {
        AppError::Io { kind, .. } => {
            match kind {
                IoKind::NotFound | IoKind::PermissionDenied | IoKind::InvalidInput
                | IoKind::InvalidData | IoKind::AlreadyExists => {
                    return false;
                },
                IoKind::Other => {},
            }
        },
        _ => {},
    }
    match err {
        AppError::Config(_) | AppError::BackendNotFound(_) | AppError::GameNotFound(_)
        | AppError::Path(_) => false,
        _ => true,
    }
}

/// Attempts an operation gets in all.
pub const ATTEMPTS: usize = 4;

/// Wait before retry number `attempt + 1`, in milliseconds.
pub open spec fn backoff_ms(attempt: int) -> u64 {
    if attempt == 0 {
        500
    } else if attempt == 1 {
        2000
    } else {
        8000
    }
}

/// What to do after attempt number `attempt` (from 0) failed with `err`:
/// `None` to give up and report `err`, or the wait before the next attempt.
/// Errors that are not retryable are reported at once; a retryable one is
/// retried after 500, 2000 and 8000 ms, and the fourth failure is reported.
pub fn retry_delay(attempt: usize, err: &AppError) -> (r: Option<u64>)
    ensures
        r is Some <==> retryable(*err) && attempt < 3,
        r matches Some(ms) ==> ms == backoff_ms(attempt as int),
{
    if !is_retryable(err) {
        return None;
    }
    if attempt == 0 {
        Some(500)
    } else if attempt == 1 {
        Some(2000)
    } else if attempt == 2 {
        Some(8000)
    } else {
        None
    }
}

} // verus!
