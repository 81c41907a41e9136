//! Decisions of the automatic syncs: which games a periodic pass or a
//! "sync everything" covers and what it reports, and which games a burst of
//! file-system events touches and which of them a watcher starts.
//! Waiting, watching and running the syncs
//! happen outside the library.

use crate::error::AppError;
use crate::config::InFlight;
use crate::engine::strs_view;
use crate::model::{GameProfile, SyncDirection};
use crate::text::{concat3, owned, str_eq};
use vstd::prelude::*;

verus! {

broadcast use vstd::string::group_string_axioms;

/// Quiet time after the last file event before a watched game syncs, in
/// milliseconds.
pub const DEBOUNCE_MS: u64 = 5000;

/// (id, name) of the games a periodic pass syncs (those with auto-sync
/// on), in configuration order.
pub open spec fn auto_ids(gs: Seq<GameProfile>) -> Seq<(Seq<char>, Seq<char>)>
    decreases gs.len(),
{
    if gs.len() == 0 {
        Seq::empty()
    } else if gs.last().auto_sync {
        auto_ids(gs.drop_last()).push((gs.last().id@, gs.last().name@))
    } else {
        auto_ids(gs.drop_last())
    }
}

/// The games a periodic pass syncs, as (id, name).
pub fn auto_sync_games(games: &Vec<GameProfile>) -> (r: Vec<(String, String)>)
    ensures
        r@.map_values(|e: (String, String)| (e.0@, e.1@)) == auto_ids(games@),
{
    let mut out: Vec<(String, String)> = Vec::new();
    let mut i: usize = 0;
    while i < games.len()
        invariant
            i <= games@.len(),
            out@.map_values(|e: (String, String)| (e.0@, e.1@)) == auto_ids(games@.subrange(0, i as int)),
        decreases games@.len() - i,
    {
        assert(games@.subrange(0, i + 1).drop_last() =~= games@.subrange(0, i as int));
        let ghost before = out@;
        if games[i].auto_sync {
            out.push((games[i].id.clone(), games[i].name.clone()));
            assert(out@.map_values(|e: (String, String)| (e.0@, e.1@)) =~= before.map_values(
                |e: (String, String)| (e.0@, e.1@),
            ).push((games@[i as int].id@, games@[i as int].name@)));
        }
        i = i + 1;
    }
    assert(games@.subrange(0, games@.len() as int) =~= games@);
    out
}

/// What a batch of syncs (a periodic pass, or "sync everything") keeps:
/// the last failure, as `<game name>: <error>`.
#[derive(Debug)]
pub struct BatchResult {
    pub last_error: Option<String>,
}

/// A batch with nothing run yet.
pub fn batch_start() -> (b: BatchResult)
    ensures
        b.last_error is None,
{
    BatchResult { last_error: None }
}

/// Records the outcome of one game's sync.
pub fn batch_record(b: &mut BatchResult, game_name: &str, error: Option<&str>)
    ensures
        match error {
            Some(e) => final(b).last_error matches Some(m) && m@ == game_name@ + ": "@ + e@,
            None => final(b).last_error == old(b).last_error,
        },
{
    match error {
        Some(e) => {
            b.last_error = Some(concat3(game_name, ": ", e));
        },
        None => {},
    }
}

/// Which batch it was.
#[derive(Debug, Clone, Copy, PartialEq, Eq, Structural)]
pub enum BatchKind {
    /// The periodic pass over the games with auto-sync on.
    Periodic,
    /// "Sync everything", asked for by the user.
    All,
}

/// Status line while a batch runs.
pub fn batch_running_message(kind: BatchKind) -> (s: String)
    ensures
        kind == BatchKind::Periodic ==> s@ == "自动同步中"@,
        kind == BatchKind::All ==> s@ == "一键同步中"@,
{
    match kind {
        BatchKind::Periodic => owned("自动同步中"),
        BatchKind::All => owned("一键同步中"),
    }
}

/// Status line once a batch is done.
pub fn batch_done_message(kind: BatchKind, b: &BatchResult) -> (s: String)
    ensures
        kind == BatchKind::Periodic && b.last_error is Some ==> s@ == "自动同步完成（含错误）"@,
        kind == BatchKind::Periodic && b.last_error is None ==> s@ == "自动同步完成"@,
        kind == BatchKind::All && b.last_error is Some ==> s@ == "同步完成（含错误）"@,
        kind == BatchKind::All && b.last_error is None ==> s@ == "同步完成"@,
{
    match (kind, &b.last_error) {
        (BatchKind::Periodic, Some(_)) => owned("自动同步完成（含错误）"),
        (BatchKind::Periodic, None) => owned("自动同步完成"),
        (BatchKind::All, Some(_)) => owned("同步完成（含错误）"),
        (BatchKind::All, None) => owned("同步完成"),
    }
}

/// What "sync everything" returns: its last failure as the error.
pub fn batch_result(b: BatchResult) -> (r: Result<(), AppError>)
    ensures
        match b.last_error {
            Some(e) => r matches Err(AppError::Other(m)) && m == e,
            None => r is Ok,
        },
{
    match b.last_error {
        Some(e) => Err(AppError::Other(e)),
        None => Ok(()),
    }
}

/// Whether a path (by components) lies under a root (by components).
pub open spec fn within(path: Seq<Seq<char>>, root: Seq<Seq<char>>) -> bool {
    root.len() <= path.len() && forall|i: int| 0 <= i < root.len() ==> path[i] == root[i]
}

fn within_exec(path: &Vec<String>, root: &Vec<String>) -> (b: bool)
    ensures
        b == within(path@.map_values(|s: String| s@), root@.map_values(|s: String| s@)),
{
    if root.len() > path.len() {
        return false;
    }
    let mut i: usize = 0;
    while i < root.len()
        invariant
            root@.len() <= path@.len(),
            i <= root@.len(),
            forall|k: int| 0 <= k < i ==> path@[k]@ == root@[k]@,
        decreases root@.len() - i,
    {
        if !str_eq(path[i].as_str(), root[i].as_str()) {
            assert(path@.map_values(|s: String| s@)[i as int] == path@[i as int]@);
            assert(root@.map_values(|s: String| s@)[i as int] == root@[i as int]@);
            return false;
        }
        i = i + 1;
    }
    true
}

/// The game a changed path belongs to: the first watched root it lies
/// under.
pub open spec fn owner_of(path: Seq<Seq<char>>, roots: Seq<(Seq<char>, Seq<Seq<char>>)>) -> Option<Seq<char>>
    decreases roots.len(),
{
    if roots.len() == 0 {
        None
    } else if within(path, roots[0].1) {
        Some(roots[0].0)
    } else {
        owner_of(path, roots.drop_first())
    }
}

/// View of the watched roots: (game id, root components).
pub open spec fn roots_view(roots: Seq<(String, Vec<String>)>) -> Seq<(Seq<char>, Seq<Seq<char>>)> {
    roots.map_values(|r: (String, Vec<String>)| (r.0@, r.1@.map_values(|s: String| s@)))
}

fn owner_exec(path: &Vec<String>, roots: &Vec<(String, Vec<String>)>) -> (r: Option<String>)
    ensures
        match owner_of(path@.map_values(|s: String| s@), roots_view(roots@)) {
            Some(g) => r matches Some(x) && x@ == g,
            None => r is None,
        },
{
    let ghost pv = path@.map_values(|s: String| s@);
    let ghost rv = roots_view(roots@);
    let mut i: usize = 0;
    assert(rv.subrange(0, rv.len() as int) =~= rv);
    while i < roots.len()
        invariant
            i <= roots@.len(),
            pv == path@.map_values(|s: String| s@),
            rv == roots_view(roots@),
            owner_of(pv, rv) == owner_of(pv, rv.subrange(i as int, rv.len() as int)),
        decreases roots@.len() - i,
    {
        let ghost rest = rv.subrange(i as int, rv.len() as int);
        assert(rest[0] == rv[i as int]);
        assert(rest.drop_first() =~= rv.subrange(i + 1, rv.len() as int));
        if within_exec(path, &roots[i].1) {
            return Some(roots[i].0.clone());
        }
        i = i + 1;
    }
    None
}

/// The games touched by a burst of changed paths, each once, in order of
/// first touch.
pub open spec fn affected_spec(
    events: Seq<Seq<Seq<char>>>,
    roots: Seq<(Seq<char>, Seq<Seq<char>>)>,
) -> Seq<Seq<char>>
    decreases events.len(),
{
    if events.len() == 0 {
        Seq::empty()
    } else {
        let before = affected_spec(events.drop_last(), roots);
        match owner_of(events.last(), roots) {
            Some(g) => if before.contains(g) {
                before
            } else {
                before.push(g)
            },
            None => before,
        }
    }
}

/// The games to sync after a burst of file changes.
pub fn affected_games(events: &Vec<Vec<String>>, roots: &Vec<(String, Vec<String>)>) -> (r: Vec<String>)
    ensures
        r@.map_values(|s: String| s@) == affected_spec(
            events@.map_values(|p: Vec<String>| p@.map_values(|s: String| s@)),
            roots_view(roots@),
        ),
{
    let ghost ev = events@.map_values(|p: Vec<String>| p@.map_values(|s: String| s@));
    let ghost rv = roots_view(roots@);
    let mut out: Vec<String> = Vec::new();
    let mut i: usize = 0;
    while i < events.len()
        invariant
            i <= events@.len(),
            ev == events@.map_values(|p: Vec<String>| p@.map_values(|s: String| s@)),
            rv == roots_view(roots@),
            out@.map_values(|s: String| s@) == affected_spec(ev.subrange(0, i as int), rv),
        decreases events@.len() - i,
    {
        assert(ev.subrange(0, i + 1).drop_last() =~= ev.subrange(0, i as int));
        assert(ev.subrange(0, i + 1).last() == ev[i as int]);
        let ghost before = out@;
        match owner_exec(&events[i], roots) {
            Some(g) => {
                let mut seen = false;
                let mut k: usize = 0;
                while k < out.len()
                    invariant
                        k <= out@.len(),
                        seen == out@.subrange(0, k as int).map_values(|s: String| s@).contains(g@),
                    decreases out@.len() - k,
                {
                    let eq = str_eq(out[k].as_str(), g.as_str());
                    proof {
                        let a = out@.subrange(0, k as int).map_values(|s: String| s@);
                        let b = out@.subrange(0, k + 1).map_values(|s: String| s@);
                        assert(b =~= a.push(out@[k as int]@));
                        if a.contains(g@) {
                            let w = a.index_of(g@);
                            assert(b[w] == g@);
                        }
                        if eq {
                            assert(b[k as int] == g@);
                        }
                        if b.contains(g@) {
                            let w = b.index_of(g@);
                            if w < k {
                                assert(a[w] == g@);
                            }
                        }
                    }
                    if eq {
                        seen = true;
                    }
                    k = k + 1;
                }
                assert(out@.subrange(0, out@.len() as int) =~= out@);
                if !seen {
                    out.push(g);
                    assert(out@.map_values(|s: String| s@) =~= before.map_values(|s: String| s@).push(
                        out@.last()@,
                    ));
                }
            },
            None => {},
        }
        i = i + 1;
    }
    assert(ev.subrange(0, ev.len() as int) =~= ev);
    out
}

/// The games a watcher starts from the affected ones, in order: those not
/// under way before, each once.
pub open spec fn fresh_ids(affected: Seq<Seq<char>>, held: Set<Seq<char>>) -> Seq<Seq<char>>
    decreases affected.len(),
{
    if affected.len() == 0 {
        Seq::empty()
    } else {
        let before = affected.drop_last();
        let id = affected.last();
        if held.contains(id) || before.contains(id) {
            fresh_ids(before, held)
        } else {
            fresh_ids(before, held).push(id)
        }
    }
}

/// The ids of a sequence, as a set.
pub open spec fn id_set(ids: Seq<Seq<char>>) -> Set<Seq<char>> {
    Set::new(|x: Seq<char>| ids.contains(x))
}

/// What a settled burst of file changes starts: every affected game that
/// is not already under way is marked under way and pushed (a local change
/// never lets an older remote copy overwrite a save in progress); a game
/// already under way is skipped.
pub fn watcher_starts(affected: &Vec<String>, in_flight: &mut InFlight) -> (r: Vec<(String, SyncDirection)>)
    requires
        old(in_flight).wf(),
    ensures
        final(in_flight).wf(),
        final(in_flight).view() == old(in_flight).view().union(id_set(strs_view(affected@))),
        r@.map_values(|e: (String, SyncDirection)| e.0@) == fresh_ids(
            strs_view(affected@),
            old(in_flight).view(),
        ),
        forall|i: int| 0 <= i < r@.len() ==> (#[trigger] r@[i]).1 == SyncDirection::Push,
{
    let ghost held = in_flight.view();
    let ghost ids = strs_view(affected@);
    let mut out: Vec<(String, SyncDirection)> = Vec::new();
    let mut i: usize = 0;
    assert(id_set(ids.subrange(0, 0)) =~= Set::<Seq<char>>::empty());
    assert(held.union(Set::<Seq<char>>::empty()) =~= held);
    assert(ids.subrange(0, 0) =~= Seq::<Seq<char>>::empty());
    assert(out@.map_values(|e: (String, SyncDirection)| e.0@) =~= Seq::<Seq<char>>::empty());
    while i < affected.len()
        invariant
            i <= affected@.len(),
            ids == strs_view(affected@),
            in_flight.wf(),
            in_flight.view() == held.union(id_set(ids.subrange(0, i as int))),
            out@.map_values(|e: (String, SyncDirection)| e.0@) == fresh_ids(
                ids.subrange(0, i as int),
                held,
            ),
            forall|j: int| 0 <= j < out@.len() ==> (#[trigger] out@[j]).1 == SyncDirection::Push,
        decreases affected@.len() - i,
    {
        let id = &affected[i];
        let ghost before = in_flight.view();
        let ghost pre = ids.subrange(0, i as int);
        let ghost next = ids.subrange(0, i + 1);
        assert(ids[i as int] == id@);
        proof {
            crate::engine::lemma_prefix_contains_step(ids, i as int);
            assert(next.drop_last() =~= pre);
            assert(next.last() == id@);
        }
        let ghost before_out = out@.map_values(|e: (String, SyncDirection)| e.0@);
        if in_flight.try_acquire(id.as_str()) {
            out.push((id.clone(), SyncDirection::Push));
            assert(out@.map_values(|e: (String, SyncDirection)| e.0@) =~= before_out.push(id@));
        }
        assert(in_flight.view() =~= held.union(id_set(next)));
        i = i + 1;
    }
    assert(ids.subrange(0, affected@.len() as int) =~= ids);
    out
}

} // verus!
