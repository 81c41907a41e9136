//! The in-memory log shown in the UI: a ring of the latest entries, and the
//! text form written to the log file.

use crate::text::{concat2, concat3};
use std::collections::VecDeque;
use vstd::prelude::*;

verus! {

broadcast use vstd::std_specs::vecdeque::group_vec_dequeue_axioms;

/// One log message.
#[derive(Debug)]
pub struct LogEntry {
    pub ts: i64,
    /// `info`, `warn`, `error` or `debug`.
    pub level: String,
    pub scope: String,
    pub message: String,
}

impl Clone for LogEntry {
    fn clone(&self) -> (r: Self)
        ensures
            r == *self,
    {
        LogEntry {
            ts: self.ts,
            level: self.level.clone(),
            scope: self.scope.clone(),
            message: self.message.clone(),
        }
    }
}

/// How many entries the ring keeps.
pub const RING_CAPACITY: usize = 2000;

/// The ring after appending `e`: the oldest entry leaves when it is full.
pub open spec fn ring_push(s: Seq<LogEntry>, e: LogEntry) -> Seq<LogEntry> {
    if s.len() >= RING_CAPACITY {
        s.drop_first().push(e)
    } else {
        s.push(e)
    }
}

/// The ring after appending each of `es` in turn to an empty ring.
pub open spec fn ring_after(es: Seq<LogEntry>) -> Seq<LogEntry>
    decreases es.len(),
{
    if es.len() == 0 {
        Seq::empty()
    } else {
        ring_push(ring_after(es.drop_last()), es.last())
    }
}

/// The latest entries, oldest first, at most `RING_CAPACITY` of them.
pub struct LogRing {
    ring: VecDeque<LogEntry>,
}

impl LogRing {
    /// The entries held, oldest first.
    pub closed spec fn view(&self) -> Seq<LogEntry> {
        self.ring@
    }

    pub closed spec fn wf(&self) -> bool {
        self.ring@.len() <= RING_CAPACITY
    }

    /// An empty ring.
    pub fn new() -> (r: Self)
        ensures
            r.wf(),
            r.view() == Seq::<LogEntry>::empty(),
    {
        LogRing { ring: VecDeque::new() }
    }

    /// Appends an entry, dropping the oldest one when the ring is full.
    pub fn push(&mut self, e: LogEntry)
        requires
            old(self).wf(),
        ensures
            final(self).wf(),
            final(self).view() == ring_push(old(self).view(), e),
    {
        if self.ring.len() == RING_CAPACITY {
            let _ = self.ring.pop_front();
        }
        self.ring.push_back(e);
    }

    /// Number of entries held.
    pub fn len(&self) -> (n: usize)
        ensures
            n == self.view().len(),
    {
        self.ring.len()
    }

    /// The latest `limit` entries (all of them when there are fewer), oldest
    /// first.
    pub fn snapshot(&self, limit: usize) -> (r: Vec<LogEntry>)
        ensures
            r@ == self.view().subrange(
                self.view().len() - (if limit < self.view().len() { limit as int } else {
                    self.view().len() as int
                }),
                self.view().len() as int,
            ),
    {
        let n = self.ring.len();
        let start: usize = if limit < n { n - limit } else { 0 };
        let mut out: Vec<LogEntry> = Vec::new();
        let mut i: usize = start;
        while i < n
            invariant
                n == self.ring@.len(),
                start <= i <= n,
                out@ == self.ring@.subrange(start as int, i as int),
            decreases n - i,
        {
            let e = self.ring[i].clone();
            out.push(e);
            assert(out@ =~= self.ring@.subrange(start as int, i + 1));
            i = i + 1;
        }
        out
    }
}

/// The ring holds exactly the latest `RING_CAPACITY` entries pushed (all of
/// them while there are fewer), oldest first.
pub proof fn law_ring_keeps_latest(es: Seq<LogEntry>)
    ensures
        ring_after(es) == es.subrange(
            if es.len() > RING_CAPACITY { es.len() - RING_CAPACITY } else { 0 },
            es.len() as int,
        ),
    decreases es.len(),
{
    if es.len() > 0 {
        let d = es.drop_last();
        law_ring_keeps_latest(d);
        let lo: int = if d.len() > RING_CAPACITY { d.len() - RING_CAPACITY } else { 0 };
        let r = d.subrange(lo, d.len() as int);
        if r.len() >= RING_CAPACITY {
            assert(r.drop_first().push(es.last()) =~= es.subrange(
                es.len() - RING_CAPACITY,
                es.len() as int,
            ));
        } else {
            assert(r.push(es.last()) =~= es.subrange(
                if es.len() > RING_CAPACITY { es.len() - RING_CAPACITY } else { 0 },
                es.len() as int,
            ));
        }
    }
}

/// A new log entry.
pub fn log_entry(ts: i64, level: &str, scope: &str, message: String) -> (e: LogEntry)
    ensures
        e.ts == ts,
        e.level@ == level@,
        e.scope@ == scope@,
        e.message == message,
{
    LogEntry {
        ts,
        level: crate::text::owned(level),
        scope: crate::text::owned(scope),
        message,
    }
}

/// The text `str::to_uppercase` makes of a string (Unicode upper case).
pub uninterp spec fn upper_text(s: Seq<char>) -> Seq<char>;

/// `str::to_uppercase`.
#[verifier::external_body]
fn to_uppercase(s: &str) -> (r: String)
    ensures
        r@ == upper_text(s@),
{
    s.to_uppercase()
}

/// The time column of the log file: the UTC instant `ms` as
/// `%Y-%m-%d %H:%M:%S%.3f`, or empty for an instant `chrono` cannot
/// represent.
pub open spec fn log_time_text(ms: int) -> Seq<char> {
    crate::clock::utc_format_text(ms, "%Y-%m-%d %H:%M:%S%.3f"@)
}

/// One line of the log file: `<time> [<LEVEL>] <scope>: <message>` and a
/// newline.
pub open spec fn log_line_spec(e: LogEntry) -> Seq<char> {
    log_time_text(e.ts as int) + " ["@ + upper_text(e.level@) + "] "@ + e.scope@ + ": "@
        + e.message@ + "\n"@
}

/// Formats an entry for the log file.
pub fn log_line(e: &LogEntry) -> (r: String)
    ensures
        r@ == log_line_spec(*e),
{
    let t = crate::clock::format_utc(e.ts, "%Y-%m-%d %H:%M:%S%.3f");
    let lv = to_uppercase(e.level.as_str());
    let a = concat3(t.as_str(), " [", lv.as_str());
    let b = concat3(a.as_str(), "] ", e.scope.as_str());
    let c = concat3(b.as_str(), ": ", e.message.as_str());
    concat2(c.as_str(), "\n")
}

/// The whole log file for the entries held, oldest first.
pub fn log_file_text(ring: &LogRing) -> (r: String)
    ensures
        r@ == log_text_spec(ring.view()),
{
    let all = ring.snapshot(ring.len());
    assert(all@ =~= ring.view());
    let mut out = String::new();
    let mut i: usize = 0;
    while i < all.len()
        invariant
            i <= all@.len(),
            out@ == log_text_spec(all@.subrange(0, i as int)),
        decreases all@.len() - i,
    {
        let line = log_line(&all[i]);
        let next = concat2(out.as_str(), line.as_str());
        assert(all@.subrange(0, i + 1).drop_last() =~= all@.subrange(0, i as int));
        out = next;
        i = i + 1;
    }
    assert(all@.subrange(0, all@.len() as int) =~= all@);
    out
}

/// The lines of the entries, concatenated.
pub open spec fn log_text_spec(es: Seq<LogEntry>) -> Seq<char>
    decreases es.len(),
{
    if es.len() == 0 {
        Seq::empty()
    } else {
        log_text_spec(es.drop_last()) + log_line_spec(es.last())
    }
}

} // verus!
