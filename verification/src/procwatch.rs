//! Noticing that a game was quit: the processes named by the games are
//! looked for in the running-process list at every poll, and a game whose
//! process was running at the previous poll and is gone now gets its save
//! pushed.  Reading the process list is left to the caller.

use crate::model::GameProfile;
use crate::text::{ascii_lowercase, chars_of, str_eq, to_ascii_lowercase, trim, trim_spec};
use vstd::prelude::*;

verus! {

broadcast use vstd::string::group_string_axioms;

/// How often the process list is read, in milliseconds.
pub const POLL_INTERVAL_MS: u64 = 5000;

/// (game id, lowercased process name) of the games that name a process, in
/// configuration order.
pub open spec fn watched_spec(gs: Seq<GameProfile>) -> Seq<(Seq<char>, Seq<char>)>
    decreases gs.len(),
{
    if gs.len() == 0 {
        Seq::empty()
    } else {
        let rest = watched_spec(gs.drop_last());
        match gs.last().process_name {
            Some(p) => rest.push((gs.last().id@, ascii_lowercase(p@))),
            None => rest,
        }
    }
}

/// The games to watch, with the process each waits for.
pub fn watched_processes(games: &Vec<GameProfile>) -> (r: Vec<(String, String)>)
    ensures
        r@.map_values(|e: (String, String)| (e.0@, e.1@)) == watched_spec(games@),
{
    let mut out: Vec<(String, String)> = Vec::new();
    let mut i: usize = 0;
    while i < games.len()
        invariant
            i <= games@.len(),
            out@.map_values(|e: (String, String)| (e.0@, e.1@)) == watched_spec(
                games@.subrange(0, i as int),
            ),
        decreases games@.len() - i,
    {
        let g = &games[i];
        assert(games@.subrange(0, i + 1).drop_last() =~= games@.subrange(0, i as int));
        let ghost before = out@;
        match &g.process_name {
            Some(p) => {
                out.push((g.id.clone(), to_ascii_lowercase(p.as_str())));
                assert(out@.map_values(|e: (String, String)| (e.0@, e.1@)) =~= before.map_values(
                    |e: (String, String)| (e.0@, e.1@),
                ).push((g.id@, ascii_lowercase(p@))));
            },
            None => {},
        }
        i = i + 1;
    }
    assert(games@.subrange(0, games@.len() as int) =~= games@);
    out
}

/// Whether a character separates path components.
pub open spec fn is_sep(c: char) -> bool {
    c == '/' || c == '\\'
}

/// The text after the last `/` or `\` (all of it when there is none).
pub open spec fn last_component(s: Seq<char>) -> Seq<char>
    decreases s.len(),
{
    if s.len() == 0 {
        s
    } else if is_sep(s.last()) {
        Seq::empty()
    } else {
        last_component(s.drop_last()).push(s.last())
    }
}

fn last_component_exec(s: &str) -> (r: String)
    ensures
        r@ == last_component(s@),
{
    let x = chars_of(s);
    let mut out: Vec<char> = Vec::new();
    let mut i: usize = 0;
    while i < x.len()
        invariant
            x@ == s@,
            i <= x@.len(),
            out@ == last_component(s@.subrange(0, i as int)),
        decreases x@.len() - i,
    {
        assert(s@.subrange(0, i + 1).drop_last() =~= s@.subrange(0, i as int));
        if x[i] == '/' || x[i] == '\\' {
            out = Vec::new();
            assert(out@ =~= Seq::<char>::empty());
        } else {
            out.push(x[i]);
        }
        i = i + 1;
    }
    assert(s@.subrange(0, s@.len() as int) =~= s@);
    crate::text::string_from_chars(&out)
}

/// Whether a running process (its name lowercased) is the one wanted: the
/// same name, or a path whose last component is that name.
pub open spec fn process_hit(running: Seq<char>, want: Seq<char>) -> bool {
    running == want || last_component(running) == want
}

/// Whether any running process is the wanted one; the wanted name is
/// trimmed and lowercased first.
pub open spec fn any_hit(running: Seq<Seq<char>>, want: Seq<char>) -> bool {
    exists|i: int| 0 <= i < running.len() && process_hit(#[trigger] running[i], ascii_lowercase(trim_spec(want)))
}

fn any_hit_exec(running: &Vec<String>, want: &str) -> (b: bool)
    ensures
        b == any_hit(running@.map_values(|s: String| s@), want@),
{
    let t = trim(want);
    let w = to_ascii_lowercase(t.as_str());
    let ghost rv = running@.map_values(|s: String| s@);
    let mut i: usize = 0;
    while i < running.len()
        invariant
            i <= running@.len(),
            rv == running@.map_values(|s: String| s@),
            w@ == ascii_lowercase(trim_spec(want@)),
            forall|j: int| 0 <= j < i ==> !process_hit(#[trigger] rv[j], w@),
        decreases running@.len() - i,
    {
        let n = &running[i];
        assert(rv[i as int] == n@);
        if str_eq(n.as_str(), w.as_str()) {
            return true;
        }
        let last = last_component_exec(n.as_str());
        if str_eq(last.as_str(), w.as_str()) {
            return true;
        }
        i = i + 1;
    }
    false
}

/// Lowercases the names of the running processes.
pub fn normalize_names(raw: &Vec<String>) -> (r: Vec<String>)
    ensures
        r@.map_values(|s: String| s@) == raw@.map_values(|s: String| ascii_lowercase(s@)),
{
    let mut out: Vec<String> = Vec::new();
    let mut i: usize = 0;
    while i < raw.len()
        invariant
            i <= raw@.len(),
            out@.map_values(|s: String| s@) == raw@.subrange(0, i as int).map_values(
                |s: String| ascii_lowercase(s@),
            ),
        decreases raw@.len() - i,
    {
        let ghost before = out@;
        let l = to_ascii_lowercase(raw[i].as_str());
        out.push(l);
        assert(out@.map_values(|s: String| s@) =~= before.map_values(|s: String| s@).push(
            ascii_lowercase(raw@[i as int]@),
        ));
        assert(raw@.subrange(0, i + 1).map_values(|s: String| ascii_lowercase(s@)) =~= raw@.subrange(
            0,
            i as int,
        ).map_values(|s: String| ascii_lowercase(s@)).push(ascii_lowercase(raw@[i as int]@)));
        i = i + 1;
    }
    assert(raw@.subrange(0, raw@.len() as int) =~= raw@);
    out
}

/// The ids of the watched games whose process is running, in order.
pub open spec fn running_spec(watched: Seq<(Seq<char>, Seq<char>)>, running: Seq<Seq<char>>) -> Seq<Seq<char>>
    decreases watched.len(),
{
    if watched.len() == 0 {
        Seq::empty()
    } else {
        let rest = running_spec(watched.drop_last(), running);
        if any_hit(running, watched.last().1) {
            rest.push(watched.last().0)
        } else {
            rest
        }
    }
}

/// The watched games whose process is running now.
pub fn games_running(watched: &Vec<(String, String)>, running: &Vec<String>) -> (r: Vec<String>)
    ensures
        r@.map_values(|s: String| s@) == running_spec(
            watched@.map_values(|e: (String, String)| (e.0@, e.1@)),
            running@.map_values(|s: String| s@),
        ),
{
    let ghost wv = watched@.map_values(|e: (String, String)| (e.0@, e.1@));
    let ghost rv = running@.map_values(|s: String| s@);
    let mut out: Vec<String> = Vec::new();
    let mut i: usize = 0;
    while i < watched.len()
        invariant
            i <= watched@.len(),
            wv == watched@.map_values(|e: (String, String)| (e.0@, e.1@)),
            rv == running@.map_values(|s: String| s@),
            out@.map_values(|s: String| s@) == running_spec(wv.subrange(0, i as int), rv),
        decreases watched@.len() - i,
    {
        assert(wv.subrange(0, i + 1).drop_last() =~= wv.subrange(0, i as int));
        assert(wv.subrange(0, i + 1).last() == (watched@[i as int].0@, watched@[i as int].1@));
        let ghost before = out@;
        if any_hit_exec(running, watched[i].1.as_str()) {
            out.push(watched[i].0.clone());
            assert(out@.map_values(|s: String| s@) =~= before.map_values(|s: String| s@).push(
                watched@[i as int].0@,
            ));
        }
        i = i + 1;
    }
    assert(wv.subrange(0, wv.len() as int) =~= wv);
    out
}

/// The games running at the previous poll that are not running now, in
/// the previous poll's order.
pub open spec fn exited_spec(prev: Seq<Seq<char>>, now: Seq<Seq<char>>) -> Seq<Seq<char>>
    decreases prev.len(),
{
    if prev.len() == 0 {
        Seq::empty()
    } else {
        let rest = exited_spec(prev.drop_last(), now);
        if now.contains(prev.last()) {
            rest
        } else {
            rest.push(prev.last())
        }
    }
}

fn contains_id(v: &Vec<String>, id: &str) -> (b: bool)
    ensures
        b == v@.map_values(|s: String| s@).contains(id@),
{
    let ghost vv = v@.map_values(|s: String| s@);
    let mut i: usize = 0;
    while i < v.len()
        invariant
            i <= v@.len(),
            vv == v@.map_values(|s: String| s@),
            forall|j: int| 0 <= j < i ==> vv[j] != id@,
        decreases v@.len() - i,
    {
        if str_eq(v[i].as_str(), id) {
            assert(vv[i as int] == id@);
            return true;
        }
        i = i + 1;
    }
    false
}

/// The games whose process has gone since the previous poll: each gets its
/// save pushed.
pub fn exited_games(prev: &Vec<String>, now: &Vec<String>) -> (r: Vec<String>)
    ensures
        r@.map_values(|s: String| s@) == exited_spec(
            prev@.map_values(|s: String| s@),
            now@.map_values(|s: String| s@),
        ),
{
    let ghost pv = prev@.map_values(|s: String| s@);
    let ghost nv = now@.map_values(|s: String| s@);
    let mut out: Vec<String> = Vec::new();
    let mut i: usize = 0;
    while i < prev.len()
        invariant
            i <= prev@.len(),
            pv == prev@.map_values(|s: String| s@),
            nv == now@.map_values(|s: String| s@),
            out@.map_values(|s: String| s@) == exited_spec(pv.subrange(0, i as int), nv),
        decreases prev@.len() - i,
    {
        assert(pv.subrange(0, i + 1).drop_last() =~= pv.subrange(0, i as int));
        assert(pv.subrange(0, i + 1).last() == prev@[i as int]@);
        let ghost before = out@;
        if !contains_id(now, prev[i].as_str()) {
            out.push(prev[i].clone());
            assert(out@.map_values(|s: String| s@) =~= before.map_values(|s: String| s@).push(
                prev@[i as int]@,
            ));
        }
        i = i + 1;
    }
    assert(pv.subrange(0, pv.len() as int) =~= pv);
    out
}

/// An exit sync fires for a game exactly when it was running at the
/// previous poll and is not running now.
pub proof fn law_exit_fires_on_stop(prev: Seq<Seq<char>>, now: Seq<Seq<char>>, id: Seq<char>)
    ensures
        exited_spec(prev, now).contains(id) <==> (prev.contains(id) && !now.contains(id)),
    decreases prev.len(),
{
    if prev.len() > 0 {
        let d = prev.drop_last();
        law_exit_fires_on_stop(d, now, id);
        let r = exited_spec(d, now);
        if r.contains(id) {
            let k = r.index_of(id);
            if !now.contains(prev.last()) {
                assert(r.push(prev.last())[k] == id);
            }
        }
        if d.contains(id) {
            let k = d.index_of(id);
            assert(prev[k] == id);
        }
        if prev.contains(id) {
            let k = prev.index_of(id);
            if k < prev.len() - 1 {
                assert(d[k] == id);
            }
        }
        if !now.contains(prev.last()) {
            assert(r.push(prev.last())[r.len() as int] == prev.last());
            if r.push(prev.last()).contains(id) {
                let k = r.push(prev.last()).index_of(id);
                if k < r.len() {
                    assert(r[k] == id);
                }
            }
        }
    } else {
        assert(!prev.contains(id));
    }
}

} // verus!
