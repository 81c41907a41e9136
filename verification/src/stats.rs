//! Sync statistics: one JSON line per finished sync, in a file that is kept
//! from growing without bound.  The library decides what to keep; reading,
//! writing and JSON encoding happen outside it.

use vstd::prelude::*;

verus! {

/// One finished sync.
#[derive(Debug, Clone)]
pub struct StatEntry {
    pub ts: i64,
    pub game_id: String,
    /// `auto`, `push` or `pull`.
    pub direction: String,
    pub success: bool,
    pub uploaded_files: usize,
    pub downloaded_files: usize,
    pub total_bytes: u64,
    pub duration_ms: i64,
    pub error: Option<String>,
}

/// Entries kept at most before the oldest are dropped.
pub const MAX_ENTRIES: usize = 5000;

/// How many of the oldest entries are dropped at once.
pub const TRIM_CHUNK: usize = 1000;

/// Fills in the time of an entry that has none (`ts == 0`).
pub fn stamp_entry(entry: StatEntry, now: i64) -> (r: StatEntry)
    ensures
        r.ts == if entry.ts == 0 { now } else { entry.ts },
        r.game_id == entry.game_id,
        r.direction == entry.direction,
        r.success == entry.success,
        r.uploaded_files == entry.uploaded_files,
        r.downloaded_files == entry.downloaded_files,
        r.total_bytes == entry.total_bytes,
        r.duration_ms == entry.duration_ms,
        r.error == entry.error,
{
    let mut e = entry;
    if e.ts == 0 {
        e.ts = now;
    }
    e
}

/// Number of newline bytes.
pub open spec fn newline_count(b: Seq<u8>) -> nat
    decreases b.len(),
{
    if b.len() == 0 {
        0
    } else {
        newline_count(b.drop_last()) + if b.last() == 10 { 1nat } else { 0nat }
    }
}

/// Position just after the `n`-th newline (counting from 1), or the length
/// when there are fewer.
pub open spec fn after_newlines(b: Seq<u8>, n: nat) -> int
    decreases b.len(),
{
    if n == 0 {
        0
    } else if b.len() == 0 {
        0
    } else if b[0] == 10 {
        1 + after_newlines(b.drop_first(), (n - 1) as nat)
    } else {
        1 + after_newlines(b.drop_first(), n)
    }
}

/// The file without its first `TRIM_CHUNK` lines, every kept line ending in
/// a newline; `None` while the file holds fewer than `MAX_ENTRIES` lines.
pub open spec fn trimmed(b: Seq<u8>) -> Option<Seq<u8>> {
    if newline_count(b) < MAX_ENTRIES {
        None
    } else {
        let rest = b.subrange(after_newlines(b, TRIM_CHUNK as nat), b.len() as int);
        if rest.len() > 0 && rest.last() != 10 {
            Some(rest.push(10))
        } else {
            Some(rest)
        }
    }
}

proof fn lemma_after_newlines(b: Seq<u8>, n: nat)
    ensures
        0 <= after_newlines(b, n) <= b.len(),
        n <= newline_count(b) ==> newline_count(b.subrange(0, after_newlines(b, n))) == n,
        n > 0 && n <= newline_count(b) ==> b[after_newlines(b, n) - 1] == 10,
    decreases b.len(),
{
    if n > 0 && b.len() > 0 {
        let t = b.drop_first();
        lemma_newline_count_front(b);
        if b[0] == 10 {
            lemma_after_newlines(t, (n - 1) as nat);
        } else {
            lemma_after_newlines(t, n);
        }
        let k = after_newlines(b, n);
        if n <= newline_count(b) {
            assert(b.subrange(0, k).drop_first() =~= t.subrange(0, k - 1));
            lemma_newline_count_front(b.subrange(0, k));
            if k - 1 > 0 {
                assert(b[k - 1] == t[k - 2]);
            }
        }
    }
}

proof fn lemma_newline_count_front(b: Seq<u8>)
    requires
        b.len() > 0,
    ensures
        newline_count(b) == newline_count(b.drop_first()) + if b[0] == 10 { 1nat } else { 0nat },
    decreases b.len(),
{
    if b.len() > 1 {
        lemma_newline_count_front(b.drop_last());
        assert(b.drop_last().drop_first() =~= b.drop_first().drop_last());
        assert(b.drop_first().last() == b.last());
        assert(b.drop_last()[0] == b[0]);
        assert(newline_count(b.drop_first()) == newline_count(b.drop_first().drop_last())
            + if b.drop_first().last() == 10 { 1nat } else { 0nat });
    } else {
        assert(b.drop_first().len() == 0);
        assert(b.drop_last().len() == 0);
        assert(b.last() == b[0]);
        assert(newline_count(b.drop_first()) == 0);
        assert(newline_count(b.drop_last()) == 0);
    }
}

proof fn lemma_newline_count_split(b: Seq<u8>, k: int)
    requires
        0 <= k <= b.len(),
    ensures
        newline_count(b) == newline_count(b.subrange(0, k)) + newline_count(
            b.subrange(k, b.len() as int),
        ),
    decreases b.len() - k,
{
    if k < b.len() {
        lemma_newline_count_split(b, k + 1);
        let tail = b.subrange(k, b.len() as int);
        lemma_newline_count_front(tail);
        assert(tail.drop_first() =~= b.subrange(k + 1, b.len() as int));
        assert(b.subrange(0, k + 1).drop_last() =~= b.subrange(0, k));
    } else {
        assert(b.subrange(0, k) =~= b);
        assert(b.subrange(k, b.len() as int).len() == 0);
    }
}

/// Decides how to rewrite the statistics file before appending to it:
/// `None` to leave it, or its new content.
pub fn trim_stats(bytes: &Vec<u8>) -> (r: Option<Vec<u8>>)
    ensures
        match trimmed(bytes@) {
            None => r is None,
            Some(t) => r matches Some(v) && v@ == t,
        },
{
    let mut count: usize = 0;
    let mut i: usize = 0;
    while i < bytes.len()
        invariant
            i <= bytes@.len(),
            count == newline_count(bytes@.subrange(0, i as int)),
            count <= i,
        decreases bytes@.len() - i,
    {
        assert(bytes@.subrange(0, i + 1).drop_last() =~= bytes@.subrange(0, i as int));
        if bytes[i] == 10 {
            count = count + 1;
        }
        i = i + 1;
    }
    assert(bytes@.subrange(0, bytes@.len() as int) =~= bytes@);
    if count < MAX_ENTRIES {
        return None;
    }
    // Skip the first TRIM_CHUNK lines.
    let n = bytes.len();
    let mut seen: usize = 0;
    let mut j: usize = 0;
    while seen < TRIM_CHUNK
        invariant
            j <= bytes@.len(),
            n == bytes@.len(),
            seen <= TRIM_CHUNK,
            seen == newline_count(bytes@.subrange(0, j as int)),
            newline_count(bytes@) >= MAX_ENTRIES,
            after_newlines(bytes@, TRIM_CHUNK as nat) == j + after_newlines(
                bytes@.subrange(j as int, bytes@.len() as int),
                (TRIM_CHUNK - seen) as nat,
            ),
        decreases bytes@.len() - j,
    {
        proof {
            lemma_newline_count_split(bytes@, j as int);
            if j == bytes@.len() {
                assert(bytes@.subrange(0, j as int) =~= bytes@);
            }
        }
        assert(j < bytes@.len());
        let ghost rest = bytes@.subrange(j as int, bytes@.len() as int);
        assert(rest.drop_first() =~= bytes@.subrange(j + 1, bytes@.len() as int));
        assert(bytes@.subrange(0, j + 1).drop_last() =~= bytes@.subrange(0, j as int));
        if bytes[j] == 10 {
            seen = seen + 1;
        }
        j = j + 1;
    }
    assert(bytes@.subrange(j as int, bytes@.len() as int).len() >= 0);
    let mut out: Vec<u8> = Vec::new();
    let mut k: usize = j;
    while k < bytes.len()
        invariant
            j <= k <= bytes@.len(),
            out@ == bytes@.subrange(j as int, k as int),
        decreases bytes@.len() - k,
    {
        out.push(bytes[k]);
        assert(out@ =~= bytes@.subrange(j as int, k + 1));
        k = k + 1;
    }
    assert(after_newlines(bytes@.subrange(j as int, bytes@.len() as int), 0) == 0);
    if out.len() > 0 && out[out.len() - 1] != 10 {
        out.push(10);
    }
    Some(out)
}

/// Trimming a newline-terminated statistics file that has reached the cap
/// drops exactly its oldest `TRIM_CHUNK` lines.
pub proof fn law_trim_drops_oldest_chunk(b: Seq<u8>)
    requires
        newline_count(b) >= MAX_ENTRIES,
        b.len() > 0 && b.last() == 10,
    ensures
        trimmed(b) matches Some(t) && newline_count(t) == newline_count(b) - TRIM_CHUNK
            && t == b.subrange(b.len() - t.len(), b.len() as int),
{
    let k = after_newlines(b, TRIM_CHUNK as nat);
    lemma_after_newlines(b, TRIM_CHUNK as nat);
    lemma_newline_count_split(b, k);
    let rest = b.subrange(k, b.len() as int);
    if rest.len() > 0 {
        assert(rest.last() == b.last());
    }
}

/// Reading the file left to right: the non-empty lines completed so far,
/// and the line being read.
pub open spec fn lines_acc(b: Seq<u8>) -> (Seq<Seq<u8>>, Seq<u8>)
    decreases b.len(),
{
    if b.len() == 0 {
        (Seq::empty(), Seq::empty())
    } else {
        let (done, cur) = lines_acc(b.drop_last());
        if b.last() == 10 {
            (if cur.len() > 0 { done.push(cur) } else { done }, Seq::empty())
        } else {
            (done, cur.push(b.last()))
        }
    }
}

/// The non-empty lines of a statistics file, without their newlines.
pub open spec fn nonempty_lines(b: Seq<u8>) -> Seq<Seq<u8>> {
    let (done, cur) = lines_acc(b);
    if cur.len() > 0 {
        done.push(cur)
    } else {
        done
    }
}

/// Splits the statistics file into its entries' lines (empty lines are
/// skipped); each is then decoded as JSON, and lines that do not decode are
/// dropped.
pub fn stat_lines(bytes: &Vec<u8>) -> (r: Vec<Vec<u8>>)
    ensures
        r@.map_values(|l: Vec<u8>| l@) == nonempty_lines(bytes@),
{
    let mut done: Vec<Vec<u8>> = Vec::new();
    let mut cur: Vec<u8> = Vec::new();
    let mut i: usize = 0;
    while i < bytes.len()
        invariant
            i <= bytes@.len(),
            (done@.map_values(|l: Vec<u8>| l@), cur@) == lines_acc(bytes@.subrange(0, i as int)),
        decreases bytes@.len() - i,
    {
        assert(bytes@.subrange(0, i + 1).drop_last() =~= bytes@.subrange(0, i as int));
        let ghost before = done@;
        if bytes[i] == 10 {
            if cur.len() > 0 {
                let line = cur;
                let ghost lv = line@;
                done.push(line);
                assert(done@.map_values(|l: Vec<u8>| l@) =~= before.map_values(|l: Vec<u8>| l@).push(lv));
            }
            cur = Vec::new();
            assert(cur@ =~= Seq::<u8>::empty());
        } else {
            cur.push(bytes[i]);
        }
        i = i + 1;
    }
    assert(bytes@.subrange(0, bytes@.len() as int) =~= bytes@);
    if cur.len() > 0 {
        let ghost before = done@;
        let ghost lv = cur@;
        done.push(cur);
        assert(done@.map_values(|l: Vec<u8>| l@) =~= before.map_values(|l: Vec<u8>| l@).push(lv));
    }
    done
}

} // verus!
