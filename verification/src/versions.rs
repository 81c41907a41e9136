//! Historical versions kept on the remote: their key layout, listing them
//! newest first, choosing which to prune, and resolving where a file lives
//! locally.

use crate::error::AppError;
use crate::model::RemoteFileMeta;
use crate::paths::{remote_key_spec, to_remote_key, LocalPath};
use crate::text::{
    concat2, concat3, decimal, decimal_int, i64_to_string, owned, parse_i64, parse_i64_spec,
    rsplit_once_char, rsplit_once_spec, seq_starts_with, split_char, split_spec, starts_with,
    strip_prefix, u64_to_string,
};
use vstd::prelude::*;

verus! {

broadcast use vstd::string::group_string_axioms;

// ---------------------------------------------------------------------------
// Key layout
// ---------------------------------------------------------------------------

/// Where a game's remote manifest is stored, relative to its prefix.
pub open spec fn meta_rel() -> Seq<char> {
    ".gsyncing/index.json"@
}

/// Where a game's archived versions are stored, relative to its prefix.
pub open spec fn versions_rel() -> Seq<char> {
    ".gsyncing/versions"@
}

/// Key of the remote manifest of a game.
pub fn meta_key(remote_prefix: &str) -> (k: String)
    ensures
        k@ == remote_key_spec(remote_prefix@, meta_rel()),
{
    to_remote_key(remote_prefix, ".gsyncing/index.json")
}

/// Key under which a game's versions are listed.
pub fn versions_prefix(remote_prefix: &str) -> (k: String)
    ensures
        k@ == remote_key_spec(remote_prefix@, versions_rel()),
{
    to_remote_key(remote_prefix, ".gsyncing/versions")
}

/// Relative path of the archived copy of `rel` taken at `stamp`.
pub open spec fn archive_rel(rel: Seq<char>, stamp: int) -> Seq<char> {
    versions_rel() + "/"@ + rel + "."@ + decimal_int(stamp)
}

/// Key of the archived copy of `rel` taken at `stamp` (milliseconds).
pub fn archive_key(remote_prefix: &str, rel: &str, stamp: i64) -> (k: String)
    ensures
        k@ == remote_key_spec(remote_prefix@, archive_rel(rel@, stamp as int)),
{
    let head = concat3(".gsyncing/versions", "/", rel);
    let ts = i64_to_string(stamp);
    let dst = concat3(head.as_str(), ".", ts.as_str());
    proof {
        reveal_strlit(".gsyncing/versions");
    }
    to_remote_key(remote_prefix, dst.as_str())
}

/// Key of the archived copy of `rel` taken now; fails when the system
/// clock is unusable.
pub fn archive_key_now(remote_prefix: &str, rel: &str) -> (r: Result<String, AppError>)
    ensures
        r matches Ok(k) ==> exists|stamp: int|
            0 <= stamp <= crate::clock::MAX_UTC_MS && k@ == remote_key_spec(
                remote_prefix@,
                #[trigger] archive_rel(rel@, stamp),
            ),
        r matches Err(e) ==> e matches AppError::Other(m) && m@ == crate::clock::clock_message(),
{
    match crate::clock::now_millis() {
        Some(now) => Ok(archive_key(remote_prefix, rel, now)),
        None => Err(crate::clock::clock_error()),
    }
}

/// The relative path and timestamp encoded in a version key
/// `<versions prefix>/<rel>.<ms>`.
pub open spec fn version_parts(vp: Seq<char>, key: Seq<char>) -> Option<(Seq<char>, int)> {
    let head = vp + "/"@;
    if !seq_starts_with(key, head) {
        None
    } else {
        match rsplit_once_spec(key.subrange(head.len() as int, key.len() as int), '.') {
            None => None,
            Some((rel, ts)) => match parse_i64_spec(ts) {
                None => None,
                Some(v) => Some((rel, v)),
            },
        }
    }
}

/// Decodes a version key.
pub fn parse_version_key(versions_prefix: &str, key: &str) -> (r: Option<(String, i64)>)
    ensures
        match version_parts(versions_prefix@, key@) {
            None => r is None,
            Some((rel, ts)) => r matches Some((x, t)) && x@ == rel && t as int == ts,
        },
{
    let head = concat2(versions_prefix, "/");
    let after = match strip_prefix(key, head.as_str()) {
        Some(a) => a,
        None => {
            return None;
        },
    };
    let (rel, ts) = match rsplit_once_char(after.as_str(), '.') {
        Some(p) => p,
        None => {
            return None;
        },
    };
    match parse_i64(ts.as_str()) {
        Some(v) => Some((rel, v)),
        None => None,
    }
}

/// Refuses a key that does not lie under the game's versions prefix.
pub fn check_version_key(versions_prefix: &str, key: &str) -> (r: Result<(), AppError>)
    ensures
        r is Ok <==> seq_starts_with(key@, versions_prefix@ + "/"@),
        r is Err ==> (r matches Err(AppError::Other(m)) && m@ == "key '"@ + key@
            + "' is not under this game's versions prefix"@),
{
    let head = concat2(versions_prefix, "/");
    if starts_with(key, head.as_str()) {
        Ok(())
    } else {
        let m = concat3("key '", key, "' is not under this game's versions prefix");
        Err(AppError::Other(m))
    }
}

/// The relative path a version key restores, or why it cannot be restored.
pub open spec fn restore_rel_spec(vp: Seq<char>, key: Seq<char>) -> Result<Seq<char>, Seq<char>> {
    let head = vp + "/"@;
    if !seq_starts_with(key, head) {
        Err("version key not under prefix: "@ + key)
    } else {
        match rsplit_once_spec(key.subrange(head.len() as int, key.len() as int), '.') {
            None => Err("malformed version key: "@ + key),
            Some((rel, _)) => Ok(rel),
        }
    }
}

/// The relative path a version key restores (the timestamp is not parsed).
pub fn restore_rel(versions_prefix: &str, key: &str) -> (r: Result<String, AppError>)
    ensures
        match restore_rel_spec(versions_prefix@, key@) {
            Ok(rel) => r matches Ok(x) && x@ == rel,
            Err(m) => r matches Err(AppError::Other(x)) && x@ == m,
        },
{
    let head = concat2(versions_prefix, "/");
    let after = match strip_prefix(key, head.as_str()) {
        Some(a) => a,
        None => {
            return Err(AppError::Other(concat2("version key not under prefix: ", key)));
        },
    };
    match rsplit_once_char(after.as_str(), '.') {
        Some((rel, _)) => Ok(rel),
        None => Err(AppError::Other(concat2("malformed version key: ", key))),
    }
}

// ---------------------------------------------------------------------------
// Listing
// ---------------------------------------------------------------------------

/// One archived version of a file.
#[derive(Debug)]
pub struct VersionInfo {
    pub rel: String,
    pub key: String,
    pub timestamp_ms: i64,
    pub size: u64,
}

/// (relative path, key, timestamp, size) of a version.
pub open spec fn version_view(v: VersionInfo) -> (Seq<char>, Seq<char>, i64, u64) {
    (v.rel@, v.key@, v.timestamp_ms, v.size)
}

pub open spec fn versions_view(vs: Seq<VersionInfo>) -> Seq<(Seq<char>, Seq<char>, i64, u64)> {
    vs.map_values(|v: VersionInfo| version_view(v))
}

/// The listed objects that are versions, in listing order.
pub open spec fn parsed_versions(vp: Seq<char>, es: Seq<RemoteFileMeta>) -> Seq<
    (Seq<char>, Seq<char>, i64, u64),
>
    decreases es.len(),
{
    if es.len() == 0 {
        Seq::empty()
    } else {
        let rest = parsed_versions(vp, es.drop_last());
        let m = es.last();
        match version_parts(vp, m.key@) {
            None => rest,
            Some((rel, ts)) => rest.push((rel, m.key@, ts as i64, m.size)),
        }
    }
}

/// The listed objects under the prefix whose name is not `<rel>.<ms>`.
pub open spec fn unparsed_count(vp: Seq<char>, es: Seq<RemoteFileMeta>) -> nat
    decreases es.len(),
{
    if es.len() == 0 {
        0
    } else {
        let rest = unparsed_count(vp, es.drop_last());
        let k = es.last().key@;
        if seq_starts_with(k, vp + "/"@) && version_parts(vp, k) is None {
            rest + 1
        } else {
            rest
        }
    }
}

/// Inserts `x` after every element at least as new: a stable step of a
/// newest-first sort.
pub open spec fn insert_newest_first(
    s: Seq<(Seq<char>, Seq<char>, i64, u64)>,
    x: (Seq<char>, Seq<char>, i64, u64),
) -> Seq<(Seq<char>, Seq<char>, i64, u64)>
    decreases s.len(),
{
    if s.len() == 0 {
        seq![x]
    } else if s[0].2 < x.2 {
        seq![x] + s
    } else {
        seq![s[0]] + insert_newest_first(s.drop_first(), x)
    }
}

/// Stable sort, newest first.
pub open spec fn newest_first(s: Seq<(Seq<char>, Seq<char>, i64, u64)>) -> Seq<
    (Seq<char>, Seq<char>, i64, u64),
>
    decreases s.len(),
{
    if s.len() == 0 {
        s
    } else {
        insert_newest_first(newest_first(s.drop_last()), s.last())
    }
}

proof fn lemma_insert_at(
    s: Seq<(Seq<char>, Seq<char>, i64, u64)>,
    x: (Seq<char>, Seq<char>, i64, u64),
    p: int,
)
    requires
        0 <= p <= s.len(),
        forall|k: int| 0 <= k < p ==> s[k].2 >= x.2,
        p < s.len() ==> s[p].2 < x.2,
    ensures
        insert_newest_first(s, x) == s.insert(p, x),
    decreases s.len(),
{
    if s.len() == 0 {
        assert(s.insert(p, x) =~= seq![x]);
    } else if p == 0 {
        assert(s.insert(p, x) =~= seq![x] + s);
    } else {
        let t = s.drop_first();
        assert forall|k: int| 0 <= k < p - 1 implies t[k].2 >= x.2 by {
            assert(t[k] == s[k + 1]);
        }
        if p - 1 < t.len() {
            assert(t[p - 1] == s[p]);
        }
        lemma_insert_at(t, x, p - 1);
        assert(seq![s[0]] + t.insert(p - 1, x) =~= s.insert(p, x));
    }
}

/// Reads the versions out of a listing, in listing order.
fn parse_versions(versions_prefix: &str, entries: &Vec<RemoteFileMeta>) -> (r: (
    Vec<VersionInfo>,
    usize,
))
    ensures
        versions_view(r.0@) == parsed_versions(versions_prefix@, entries@),
        r.1 == unparsed_count(versions_prefix@, entries@),
{
    let head = concat2(versions_prefix, "/");
    let mut out: Vec<VersionInfo> = Vec::new();
    let mut skipped: usize = 0;
    let mut i: usize = 0;
    while i < entries.len()
        invariant
            i <= entries@.len(),
            head@ == versions_prefix@ + "/"@,
            versions_view(out@) == parsed_versions(versions_prefix@, entries@.subrange(0, i as int)),
            skipped == unparsed_count(versions_prefix@, entries@.subrange(0, i as int)),
            skipped <= i,
        decreases entries@.len() - i,
    {
        let m = &entries[i];
        assert(entries@.subrange(0, i + 1).drop_last() =~= entries@.subrange(0, i as int));
        match parse_version_key(versions_prefix, m.key.as_str()) {
            Some((rel, ts)) => {
                let ghost before = out@;
                out.push(VersionInfo { rel, key: m.key.clone(), timestamp_ms: ts, size: m.size });
                assert(versions_view(out@) =~= versions_view(before).push(version_view(out@.last())));
            },
            None => {
                if starts_with(m.key.as_str(), head.as_str()) {
                    skipped = skipped + 1;
                }
            },
        }
        i = i + 1;
    }
    assert(entries@.subrange(0, entries@.len() as int) =~= entries@);
    (out, skipped)
}

/// The versions in a listing of the versions prefix, newest first; objects
/// whose name is not `<rel>.<ms>` are left out, and versions with the same
/// timestamp keep their listing order.
pub fn list_versions_from(versions_prefix: &str, entries: &Vec<RemoteFileMeta>) -> (r: Vec<
    VersionInfo,
>)
    ensures
        versions_view(r@) == newest_first(parsed_versions(versions_prefix@, entries@)),
{
    let (parsed, _) = parse_versions(versions_prefix, entries);
    let ghost ps = parsed_versions(versions_prefix@, entries@);
    let mut out: Vec<VersionInfo> = Vec::new();
    let ghost n = ps.len();
    let mut i: usize = 0;
    assert(ps.subrange(0, 0) =~= Seq::<(Seq<char>, Seq<char>, i64, u64)>::empty());
    while i < parsed.len()
        invariant
            n == ps.len(),
            versions_view(parsed@) == ps,
            i <= n,
            versions_view(out@) == newest_first(ps.subrange(0, i as int)),
        decreases n - i,
    {
        let y = &parsed[i];
        let x = VersionInfo {
            rel: y.rel.clone(),
            key: y.key.clone(),
            timestamp_ms: y.timestamp_ms,
            size: y.size,
        };
        assert(version_view(x) == ps[i as int]);
        let mut p: usize = 0;
        while p < out.len() && out[p].timestamp_ms >= x.timestamp_ms
            invariant
                p <= out@.len(),
                forall|k: int| 0 <= k < p ==> (#[trigger] out@[k]).timestamp_ms >= x.timestamp_ms,
            decreases out@.len() - p,
        {
            p = p + 1;
        }
        proof {
            let sv = versions_view(out@);
            lemma_insert_at(sv, version_view(x), p as int);
            assert(ps.subrange(0, i + 1).drop_last() =~= ps.subrange(0, i as int));
        }
        let ghost before = out@;
        out.insert(p, x);
        assert(versions_view(out@) =~= versions_view(before).insert(p as int, version_view(x)));
        i = i + 1;
    }
    assert(ps.subrange(0, n as int) =~= ps);
    out
}

/// A newest-first sequence.
pub open spec fn is_newest_first(s: Seq<(Seq<char>, Seq<char>, i64, u64)>) -> bool {
    forall|i: int, j: int| 0 <= i < j < s.len() ==> s[i].2 >= s[j].2
}

proof fn lemma_insert_keeps_order(
    s: Seq<(Seq<char>, Seq<char>, i64, u64)>,
    x: (Seq<char>, Seq<char>, i64, u64),
)
    requires
        is_newest_first(s),
    ensures
        is_newest_first(insert_newest_first(s, x)),
        insert_newest_first(s, x).len() == s.len() + 1,
        insert_newest_first(s, x).to_multiset() == s.to_multiset().insert(x),
    decreases s.len(),
{
    broadcast use vstd::seq_lib::group_seq_properties;
    broadcast use vstd::multiset::group_multiset_axioms;
    if s.len() == 0 {
        assert(seq![x] =~= Seq::<(Seq<char>, Seq<char>, i64, u64)>::empty().push(x));
    } else if s[0].2 < x.2 {
        assert(seq![x] + s =~= s.insert(0, x));
        s.to_multiset_ensures();
        vstd::seq_lib::lemma_multiset_commutative(seq![x], s);
        assert(seq![x].to_multiset() =~= vstd::multiset::Multiset::empty().insert(x)) by {
            assert(seq![x] =~= Seq::<(Seq<char>, Seq<char>, i64, u64)>::empty().push(x));
        }
    } else {
        let t = s.drop_first();
        assert forall|i: int, j: int| 0 <= i < j < t.len() implies t[i].2 >= t[j].2 by {
            assert(t[i] == s[i + 1]);
            assert(t[j] == s[j + 1]);
        }
        lemma_insert_keeps_order(t, x);
        let it = insert_newest_first(t, x);
        assert forall|j: int| 0 <= j < it.len() implies s[0].2 >= #[trigger] it[j].2 by {
            assert(it.to_multiset().count(it[j]) > 0);
            assert(it.contains(it[j]));
            if it[j] != x {
                assert(t.to_multiset().count(it[j]) > 0);
                assert(t.contains(it[j]));
                let k = choose|k: int| 0 <= k < t.len() && t[k] == it[j];
                assert(s[k + 1] == t[k]);
            }
        }
        let r = seq![s[0]] + it;
        assert forall|i: int, j: int| 0 <= i < j < r.len() implies r[i].2 >= r[j].2 by {
            if i == 0 {
                assert(r[j] == it[j - 1]);
            } else {
                assert(r[i] == it[i - 1]);
                assert(r[j] == it[j - 1]);
            }
        }
        vstd::seq_lib::lemma_multiset_commutative(seq![s[0]], it);
        vstd::seq_lib::lemma_multiset_commutative(seq![s[0]], t);
        assert(seq![s[0]] + t =~= s);
    }
}

/// The version list comes out newest first, and holds exactly the parsed
/// versions.
pub proof fn law_versions_newest_first(s: Seq<(Seq<char>, Seq<char>, i64, u64)>)
    ensures
        is_newest_first(newest_first(s)),
        newest_first(s).to_multiset() == s.to_multiset(),
    decreases s.len(),
{
    broadcast use vstd::seq_lib::group_seq_properties;
    if s.len() > 0 {
        law_versions_newest_first(s.drop_last());
        lemma_insert_keeps_order(newest_first(s.drop_last()), s.last());
        assert(s.drop_last().push(s.last()) =~= s);
    }
}

// ---------------------------------------------------------------------------
// Pruning
// ---------------------------------------------------------------------------

/// Whether version `j` comes before version `i` of the same file when that
/// file's versions are sorted newest first (stably, in listing order).
pub open spec fn ranks_before(ps: Seq<(Seq<char>, Seq<char>, i64, u64)>, j: int, i: int) -> bool {
    &&& ps[j].0 == ps[i].0
    &&& (ps[j].2 > ps[i].2 || (ps[j].2 == ps[i].2 && j < i))
}

/// Number of the first `n` versions that come before version `i` of the
/// same file.
pub open spec fn rank_upto(ps: Seq<(Seq<char>, Seq<char>, i64, u64)>, i: int, n: int) -> nat
    decreases n,
{
    if n <= 0 {
        0
    } else if ranks_before(ps, n - 1, i) {
        rank_upto(ps, i, n - 1) + 1
    } else {
        rank_upto(ps, i, n - 1)
    }
}

/// Position of version `i` among its file's versions, newest first.
pub open spec fn rank(ps: Seq<(Seq<char>, Seq<char>, i64, u64)>, i: int) -> nat {
    rank_upto(ps, i, ps.len() as int)
}

/// Keys of the first `n` versions that fall beyond the newest `keep` of
/// their file.
pub open spec fn prune_upto(ps: Seq<(Seq<char>, Seq<char>, i64, u64)>, keep: nat, n: int) -> Seq<
    Seq<char>,
>
    decreases n,
{
    if n <= 0 {
        Seq::empty()
    } else if rank(ps, n - 1) >= keep {
        prune_upto(ps, keep, n - 1).push(ps[n - 1].1)
    } else {
        prune_upto(ps, keep, n - 1)
    }
}

/// Keys of the versions beyond the newest `keep` of each file, in listing
/// order.
pub open spec fn prune_keys(ps: Seq<(Seq<char>, Seq<char>, i64, u64)>, keep: nat) -> Seq<Seq<char>> {
    prune_upto(ps, keep, ps.len() as int)
}

/// What pruning a listing decides: the keys to delete, and how many objects
/// under the prefix were not named `<rel>.<ms>` and were left alone.
pub struct PruneSelection {
    pub delete: Vec<String>,
    pub skipped: usize,
}

fn rank_of(vs: &Vec<VersionInfo>, i: usize) -> (r: usize)
    requires
        i < vs@.len(),
    ensures
        r == rank(versions_view(vs@), i as int),
{
    let ghost ps = versions_view(vs@);
    let mut c: usize = 0;
    let mut j: usize = 0;
    while j < vs.len()
        invariant
            i < vs@.len(),
            ps == versions_view(vs@),
            j <= vs@.len(),
            c == rank_upto(ps, i as int, j as int),
            c <= j,
        decreases vs@.len() - j,
    {
        let before = crate::text::str_eq(vs[j].rel.as_str(), vs[i].rel.as_str()) && (
        vs[j].timestamp_ms > vs[i].timestamp_ms || (vs[j].timestamp_ms == vs[i].timestamp_ms && j
            < i));
        assert(ps[j as int] == version_view(vs@[j as int]));
        assert(ps[i as int] == version_view(vs@[i as int]));
        if before {
            c = c + 1;
        }
        j = j + 1;
    }
    c
}

/// Chooses, from a listing of the versions prefix, the versions to delete so
/// that each file keeps its `keep` newest.
pub fn select_prunable(versions_prefix: &str, entries: &Vec<RemoteFileMeta>, keep: usize) -> (r:
    PruneSelection)
    ensures
        r.delete@.map_values(|k: String| k@) == prune_keys(
            parsed_versions(versions_prefix@, entries@),
            keep as nat,
        ),
        r.skipped == unparsed_count(versions_prefix@, entries@),
{
    let (vs, skipped) = parse_versions(versions_prefix, entries);
    let ghost ps = parsed_versions(versions_prefix@, entries@);
    let mut delete: Vec<String> = Vec::new();
    let mut i: usize = 0;
    while i < vs.len()
        invariant
            ps == versions_view(vs@),
            i <= vs@.len(),
            delete@.map_values(|k: String| k@) == prune_upto(ps, keep as nat, i as int),
        decreases vs@.len() - i,
    {
        let r = rank_of(&vs, i);
        let ghost before = delete@;
        if r >= keep {
            delete.push(vs[i].key.clone());
            assert(ps[i as int].1 == vs@[i as int].key@);
            assert(delete@.map_values(|k: String| k@) =~= before.map_values(|k: String| k@).push(
                ps[i as int].1,
            ));
        }
        i = i + 1;
    }
    PruneSelection { delete, skipped }
}

proof fn lemma_rank_upto_monotone(
    ps: Seq<(Seq<char>, Seq<char>, i64, u64)>,
    i: int,
    j: int,
    n: int,
)
    requires
        0 <= n <= ps.len(),
        0 <= i < ps.len(),
        0 <= j < ps.len(),
        ps[i].0 == ps[j].0,
        ps[j].2 < ps[i].2,
    ensures
        rank_upto(ps, j, n) >= rank_upto(ps, i, n) + (if i < n { 1int } else { 0int }),
    decreases n,
{
    if n > 0 {
        lemma_rank_upto_monotone(ps, i, j, n - 1);
    }
}

proof fn lemma_rank_upto_bound(ps: Seq<(Seq<char>, Seq<char>, i64, u64)>, i: int, n: int)
    requires
        0 <= n <= ps.len(),
        0 <= i < ps.len(),
    ensures
        rank_upto(ps, i, n) <= n,
        i < n ==> rank_upto(ps, i, n) < n,
    decreases n,
{
    if n > 0 {
        lemma_rank_upto_bound(ps, i, n - 1);
    }
}

proof fn lemma_prune_upto_member(
    ps: Seq<(Seq<char>, Seq<char>, i64, u64)>,
    keep: nat,
    n: int,
    i: int,
)
    requires
        0 <= i < n <= ps.len(),
        rank(ps, i) >= keep,
    ensures
        prune_upto(ps, keep, n).contains(ps[i].1),
    decreases n,
{
    if i < n - 1 {
        lemma_prune_upto_member(ps, keep, n - 1, i);
        let q = prune_upto(ps, keep, n - 1);
        let k = choose|k: int| 0 <= k < q.len() && q[k] == ps[i].1;
        if rank(ps, n - 1) >= keep {
            assert(q.push(ps[n - 1].1)[k] == ps[i].1);
        }
    } else {
        assert(prune_upto(ps, keep, n).last() == ps[i].1);
    }
}

/// Pruning never removes a newer version of a file while keeping an older
/// one: every version of a file that survives is at least as new as every
/// version of that file that is deleted.
pub proof fn law_prune_keeps_newest(
    ps: Seq<(Seq<char>, Seq<char>, i64, u64)>,
    keep: nat,
    i: int,
    j: int,
)
    requires
        0 <= i < ps.len(),
        0 <= j < ps.len(),
        ps[i].0 == ps[j].0,
        rank(ps, i) >= keep,
        rank(ps, j) < keep,
    ensures
        ps[j].2 >= ps[i].2,
        prune_keys(ps, keep).contains(ps[i].1),
{
    if ps[j].2 < ps[i].2 {
        lemma_rank_upto_monotone(ps, i, j, ps.len() as int);
    }
    lemma_prune_upto_member(ps, keep, ps.len() as int, i);
}

/// A file with no more than `keep` versions loses none of them.
pub proof fn law_prune_spares_few(ps: Seq<(Seq<char>, Seq<char>, i64, u64)>, keep: nat, i: int)
    requires
        0 <= i < ps.len(),
        same_file_count(ps, ps[i].0, ps.len() as int) <= keep,
    ensures
        rank(ps, i) < keep,
{
    lemma_rank_le_count(ps, i, ps.len() as int);
}

/// Pruning only ever deletes listed objects named like versions under the
/// versions prefix: named snapshots and live files are never pruned.
pub proof fn law_prune_touches_only_versions(vp: Seq<char>, es: Seq<RemoteFileMeta>, keep: nat)
    ensures
        forall|k: Seq<char>|
            #[trigger] prune_keys(parsed_versions(vp, es), keep).contains(k) ==> {
                &&& version_parts(vp, k) is Some
                &&& exists|i: int| 0 <= i < es.len() && es[i].key@ == k
            },
{
    let ps = parsed_versions(vp, es);
    lemma_parsed_versions_keys(vp, es);
    lemma_prune_upto_from(ps, keep, ps.len() as int);
    assert forall|k: Seq<char>| #[trigger] prune_keys(ps, keep).contains(k) implies {
        &&& version_parts(vp, k) is Some
        &&& exists|i: int| 0 <= i < es.len() && es[i].key@ == k
    } by {
        let j = choose|j: int| 0 <= j < ps.len() && ps[j].1 == k;
        assert(version_parts(vp, ps[j].1) is Some);
    }
}

/// Every parsed version is a listed object whose key decodes.
proof fn lemma_parsed_versions_keys(vp: Seq<char>, es: Seq<RemoteFileMeta>)
    ensures
        forall|j: int|
            0 <= j < parsed_versions(vp, es).len() ==> {
                &&& version_parts(vp, #[trigger] parsed_versions(vp, es)[j].1) is Some
                &&& exists|i: int| 0 <= i < es.len() && es[i].key@ == parsed_versions(vp, es)[j].1
            },
    decreases es.len(),
{
    if es.len() > 0 {
        let d = es.drop_last();
        lemma_parsed_versions_keys(vp, d);
        let rest = parsed_versions(vp, d);
        let ps = parsed_versions(vp, es);
        assert forall|j: int| 0 <= j < ps.len() implies {
            &&& version_parts(vp, #[trigger] ps[j].1) is Some
            &&& exists|i: int| 0 <= i < es.len() && es[i].key@ == ps[j].1
        } by {
            if j < rest.len() {
                assert(ps[j] == rest[j]);
                let i = choose|i: int| 0 <= i < d.len() && d[i].key@ == rest[j].1;
                assert(es[i] == d[i]);
            } else {
                assert(ps[j].1 == es[es.len() - 1].key@);
            }
        }
    }
}

/// Every key pruning selects among the first `n` versions is one of theirs.
proof fn lemma_prune_upto_from(ps: Seq<(Seq<char>, Seq<char>, i64, u64)>, keep: nat, n: int)
    requires
        n <= ps.len(),
    ensures
        forall|k: Seq<char>|
            #[trigger] prune_upto(ps, keep, n).contains(k) ==> exists|j: int|
                0 <= j < n && ps[j].1 == k,
    decreases n,
{
    if n > 0 {
        lemma_prune_upto_from(ps, keep, n - 1);
        let r = prune_upto(ps, keep, n - 1);
        assert forall|k: Seq<char>| #[trigger] prune_upto(ps, keep, n).contains(k) implies exists|j: int|
            0 <= j < n && ps[j].1 == k by {
            if rank(ps, n - 1) >= keep {
                let out = r.push(ps[n - 1].1);
                let w = out.index_of(k);
                if w < r.len() {
                    assert(r[w] == k);
                    assert(r.contains(k));
                } else {
                    assert(ps[n - 1].1 == k);
                }
            } else {
                assert(r.contains(k));
            }
        }
    }
}

/// Number of the first `n` versions that belong to file `rel`.
pub open spec fn same_file_count(ps: Seq<(Seq<char>, Seq<char>, i64, u64)>, rel: Seq<char>, n: int) -> nat
    decreases n,
{
    if n <= 0 {
        0
    } else if ps[n - 1].0 == rel {
        same_file_count(ps, rel, n - 1) + 1
    } else {
        same_file_count(ps, rel, n - 1)
    }
}

proof fn lemma_rank_le_count(ps: Seq<(Seq<char>, Seq<char>, i64, u64)>, i: int, n: int)
    requires
        0 <= n <= ps.len(),
        0 <= i < ps.len(),
    ensures
        rank_upto(ps, i, n) + (if i < n { 1int } else { 0int }) <= same_file_count(ps, ps[i].0, n),
    decreases n,
{
    if n > 0 {
        lemma_rank_le_count(ps, i, n - 1);
    }
}

// ---------------------------------------------------------------------------
// Local targets
// ---------------------------------------------------------------------------

/// The local path of `rel` under save-path root `idx`: the root joined with
/// each `/`-separated segment of `rel`.
pub fn resolve_local_path(roots: &Vec<String>, root_idx: usize, rel: &str) -> (r: Result<
    LocalPath,
    AppError,
>)
    ensures
        root_idx < roots@.len() ==> (r matches Ok(p) && p.root@ == roots@[root_idx as int]@
            && p.parts@.map_values(|s: String| s@) == split_spec(rel@, '/')),
        root_idx >= roots@.len() ==> (r matches Err(AppError::Path(m)) && m@ == "save path index "@
            + decimal(root_idx as nat) + " out of range (only "@ + decimal(roots@.len() as nat)
            + " roots)"@),
{
    if root_idx >= roots.len() {
        let a = u64_to_string(root_idx as u64);
        let b = u64_to_string(roots.len() as u64);
        let m1 = concat3("save path index ", a.as_str(), " out of range (only ");
        let m2 = concat3(m1.as_str(), b.as_str(), " roots)");
        return Err(AppError::Path(m2));
    }
    let parts = split_char(rel, '/');
    assert(parts@.map_values(|s: String| s@) =~= split_spec(rel@, '/'));
    Ok(LocalPath { root: roots[root_idx].clone(), parts })
}

// ---------------------------------------------------------------------------
// Restoring a version
// ---------------------------------------------------------------------------

/// The save-path root a restored file goes to: the one the previous sync
/// recorded for it, else the first.
pub fn restore_root_index(prior: &crate::engine::RemoteIndex, rel: &str) -> (r: usize)
    requires
        prior.wf(),
    ensures
        r == if prior.view().contains_key(rel@) { prior.view()[rel@].root_index } else { 0 },
{
    match prior.files.get(rel) {
        Some(e) => e.root_index,
        None => 0,
    }
}

/// The index entry of restored content.
pub fn restored_entry(bytes: &[u8], modified_ms: i64, root_index: usize) -> (e:
    crate::engine::RemoteIndexEntry)
    ensures
        e.sha256@ == crate::digest::hex_lower(crate::digest::sha256_of(bytes@)),
        e.size == bytes@.len(),
        e.modified_ms == modified_ms,
        e.root_index == root_index,
{
    crate::engine::RemoteIndexEntry {
        sha256: crate::digest::sha256_hex(bytes),
        size: bytes.len() as u64,
        modified_ms,
        root_index,
    }
}

/// Once a restore has recorded the restored entry in both the previous-sync
/// index and the remote index, a local file holding the restored content is
/// left alone by the next two-way sync, whatever the conflict policy.
pub proof fn law_restored_file_stays_put(
    prior: Map<Seq<char>, crate::engine::RemoteIndexEntry>,
    remote: Map<Seq<char>, crate::engine::RemoteIndexEntry>,
    rel: Seq<char>,
    e: crate::engine::RemoteIndexEntry,
    local: crate::engine::LocalFile,
    policy: crate::model::ConflictPolicy,
    ov: Map<Seq<char>, String>,
)
    requires
        local.sha256@ == e.sha256@,
    ensures
        crate::engine::key_action(
            rel,
            Some(local),
            crate::engine::get_opt(remote.insert(rel, e), rel),
            crate::engine::get_opt(prior.insert(rel, e), rel),
            policy,
            ov,
        ) == crate::engine::KeyAction::Same(local),
{
}

} // verus!
