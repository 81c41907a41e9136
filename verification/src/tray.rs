//! The tray menu: its "recent games" entries and what a click on an entry
//! asks for.

use crate::model::{GameProfile, GameSyncStatus};
use crate::text::{chars_of, concat2, concat3, owned, starts_with, string_from_chars, strip_prefix, seq_starts_with};
use vstd::prelude::*;

verus! {

broadcast use vstd::string::group_string_axioms;

/// Recent games listed in the tray at most.
pub const RECENT_LIMIT: usize = 5;

/// `s` cut to at most `max_chars` characters, the last one then being an
/// ellipsis.
pub open spec fn truncate_spec(s: Seq<char>, max_chars: nat) -> Seq<char> {
    if s.len() <= max_chars {
        s
    } else {
        s.subrange(0, max_chars - 1).push('…')
    }
}

/// Shortens a label for the menu.  A limit of zero only fits the empty
/// string (anything longer cannot be cut to fit).
pub fn truncate(s: &str, max_chars: usize) -> (r: String)
    requires
        max_chars > 0 || s@.len() == 0,
    ensures
        r@ == truncate_spec(s@, max_chars as nat),
{
    let chars = chars_of(s);
    if chars.len() <= max_chars {
        owned(s)
    } else {
        let mut out: Vec<char> = Vec::new();
        let mut i: usize = 0;
        while i < max_chars - 1
            invariant
                max_chars > 0,
                chars@ == s@,
                max_chars < chars@.len(),
                i <= max_chars - 1,
                out@ == s@.subrange(0, i as int),
            decreases max_chars - 1 - i,
        {
            out.push(chars[i]);
            assert(out@ =~= s@.subrange(0, i + 1));
            i = i + 1;
        }
        out.push('…');
        string_from_chars(&out)
    }
}

/// When a game last synced successfully, by its first status; 0 when never.
pub open spec fn last_synced(sts: Seq<GameSyncStatus>, id: Seq<char>) -> i64
    decreases sts.len(),
{
    if sts.len() == 0 {
        0
    } else if sts[0].game_id@ == id {
        match sts[0].last_sync_at {
            Some(t) => t,
            None => 0,
        }
    } else {
        last_synced(sts.drop_first(), id)
    }
}

fn last_synced_exec(sts: &Vec<GameSyncStatus>, id: &str) -> (t: i64)
    ensures
        t == last_synced(sts@, id@),
{
    let mut i: usize = 0;
    assert(sts@.subrange(0, sts@.len() as int) =~= sts@);
    while i < sts.len()
        invariant
            i <= sts@.len(),
            last_synced(sts@, id@) == last_synced(sts@.subrange(i as int, sts@.len() as int), id@),
        decreases sts@.len() - i,
    {
        let ghost rest = sts@.subrange(i as int, sts@.len() as int);
        assert(rest.drop_first() =~= sts@.subrange(i + 1, sts@.len() as int));
        if crate::text::str_eq(sts[i].game_id.as_str(), id) {
            return match sts[i].last_sync_at {
                Some(t) => t,
                None => 0,
            };
        }
        i = i + 1;
    }
    0
}

/// (last sync, id, name) of every game, in configuration order.
pub open spec fn scored(gs: Seq<GameProfile>, sts: Seq<GameSyncStatus>) -> Seq<(i64, Seq<char>, Seq<char>)> {
    Seq::new(gs.len(), |i: int| (last_synced(sts, gs[i].id@), gs[i].id@, gs[i].name@))
}

/// Inserts after every entry synced at least as recently (a stable step of
/// a newest-first sort).
pub open spec fn insert_recent(
    s: Seq<(i64, Seq<char>, Seq<char>)>,
    x: (i64, Seq<char>, Seq<char>),
) -> Seq<(i64, Seq<char>, Seq<char>)>
    decreases s.len(),
{
    if s.len() == 0 {
        seq![x]
    } else if s[0].0 < x.0 {
        seq![x] + s
    } else {
        seq![s[0]] + insert_recent(s.drop_first(), x)
    }
}

/// Stable sort, most recently synced first.
pub open spec fn recent_first(s: Seq<(i64, Seq<char>, Seq<char>)>) -> Seq<(i64, Seq<char>, Seq<char>)>
    decreases s.len(),
{
    if s.len() == 0 {
        s
    } else {
        insert_recent(recent_first(s.drop_last()), s.last())
    }
}

/// The (id, name) of the games in the tray's recent list: the most recently
/// synced first, never-synced games after them in configuration order, at
/// most `RECENT_LIMIT`.
pub open spec fn recent_spec(gs: Seq<GameProfile>, sts: Seq<GameSyncStatus>) -> Seq<(Seq<char>, Seq<char>)> {
    let sorted = recent_first(scored(gs, sts));
    let n: int = if sorted.len() < RECENT_LIMIT { sorted.len() as int } else { RECENT_LIMIT as int };
    Seq::new(n as nat, |i: int| (sorted[i].1, sorted[i].2))
}

proof fn lemma_insert_recent_at(s: Seq<(i64, Seq<char>, Seq<char>)>, x: (i64, Seq<char>, Seq<char>), p: int)
    requires
        0 <= p <= s.len(),
        forall|k: int| 0 <= k < p ==> s[k].0 >= x.0,
        p < s.len() ==> s[p].0 < x.0,
    ensures
        insert_recent(s, x) == s.insert(p, x),
    decreases s.len(),
{
    if s.len() == 0 {
        assert(s.insert(p, x) =~= seq![x]);
    } else if p == 0 {
        assert(s.insert(p, x) =~= seq![x] + s);
    } else {
        let t = s.drop_first();
        assert forall|k: int| 0 <= k < p - 1 implies t[k].0 >= x.0 by {
            assert(t[k] == s[k + 1]);
        }
        if p - 1 < t.len() {
            assert(t[p - 1] == s[p]);
        }
        lemma_insert_recent_at(t, x, p - 1);
        assert(seq![s[0]] + t.insert(p - 1, x) =~= s.insert(p, x));
    }
}

/// The games of the tray's recent list, as (id, name).
pub fn recent_games(games: &Vec<GameProfile>, statuses: &Vec<GameSyncStatus>) -> (r: Vec<(String, String)>)
    ensures
        r@.len() == recent_spec(games@, statuses@).len(),
        forall|i: int|
            0 <= i < r@.len() ==> (#[trigger] r@[i]).0@ == recent_spec(games@, statuses@)[i].0
                && r@[i].1@ == recent_spec(games@, statuses@)[i].1,
{
    let ghost sc = scored(games@, statuses@);
    let mut sorted: Vec<(i64, String, String)> = Vec::new();
    let mut i: usize = 0;
    assert(sc.subrange(0, 0) =~= Seq::<(i64, Seq<char>, Seq<char>)>::empty());
    while i < games.len()
        invariant
            i <= games@.len(),
            sc == scored(games@, statuses@),
            sorted@.map_values(|e: (i64, String, String)| (e.0, e.1@, e.2@)) == recent_first(
                sc.subrange(0, i as int),
            ),
        decreases games@.len() - i,
    {
        let g = &games[i];
        let t = last_synced_exec(statuses, g.id.as_str());
        let x = (t, g.id.clone(), g.name.clone());
        let ghost xv = (x.0, x.1@, x.2@);
        assert(xv == sc[i as int]);
        let mut p: usize = 0;
        while p < sorted.len() && sorted[p].0 >= t
            invariant
                p <= sorted@.len(),
                forall|k: int| 0 <= k < p ==> (#[trigger] sorted@[k]).0 >= t,
            decreases sorted@.len() - p,
        {
            p = p + 1;
        }
        proof {
            let sv = sorted@.map_values(|e: (i64, String, String)| (e.0, e.1@, e.2@));
            lemma_insert_recent_at(sv, xv, p as int);
            assert(sc.subrange(0, i + 1).drop_last() =~= sc.subrange(0, i as int));
        }
        let ghost before = sorted@;
        sorted.insert(p, x);
        assert(sorted@.map_values(|e: (i64, String, String)| (e.0, e.1@, e.2@)) =~= before.map_values(
            |e: (i64, String, String)| (e.0, e.1@, e.2@),
        ).insert(p as int, xv));
        i = i + 1;
    }
    assert(sc.subrange(0, games@.len() as int) =~= sc);
    let ghost sv = sorted@.map_values(|e: (i64, String, String)| (e.0, e.1@, e.2@));
    let n: usize = if sorted.len() < RECENT_LIMIT { sorted.len() } else { RECENT_LIMIT };
    let mut out: Vec<(String, String)> = Vec::new();
    let mut k: usize = 0;
    while k < n
        invariant
            k <= n,
            n <= sorted@.len(),
            sv == sorted@.map_values(|e: (i64, String, String)| (e.0, e.1@, e.2@)),
            out@.len() == k,
            forall|j: int| 0 <= j < k ==> (#[trigger] out@[j]).0@ == sv[j].1 && out@[j].1@ == sv[j].2,
        decreases n - k,
    {
        out.push((sorted[k].1.clone(), sorted[k].2.clone()));
        k = k + 1;
    }
    out
}

/// Menu id of a recent game's entry.
pub fn recent_item_id(game_id: &str) -> (s: String)
    ensures
        s@ == "recent:"@ + game_id@,
{
    concat2("recent:", game_id)
}

/// Label of a recent game's entry: its name, cut to 22 characters.
pub fn recent_item_label(name: &str) -> (s: String)
    ensures
        s@ == "同步「"@ + truncate_spec(name@, 22) + "」"@,
{
    let t = truncate(name, 22);
    concat3("同步「", t.as_str(), "」")
}

/// What a click on a tray entry asks for.
#[derive(Debug)]
pub enum MenuAction {
    /// Two-way sync of one game.
    SyncGame(String),
    SyncAll,
    ShowWindow,
    Quit,
    Nothing,
}

/// Reads a tray entry's id.
pub fn menu_action(id: &str) -> (a: MenuAction)
    ensures
        seq_starts_with(id@, "recent:"@) ==> (a matches MenuAction::SyncGame(g) && g@ == id@.subrange(
            7,
            id@.len() as int,
        )),
        !seq_starts_with(id@, "recent:"@) ==> {
            &&& id@ == "show"@ ==> a is ShowWindow
            &&& id@ == "sync_all"@ ==> a is SyncAll
            &&& id@ == "quit"@ ==> a is Quit
            &&& (id@ != "show"@ && id@ != "sync_all"@ && id@ != "quit"@) ==> a is Nothing
        },
{
    proof {
        reveal_strlit("recent:");
        reveal_strlit("show");
        reveal_strlit("sync_all");
        reveal_strlit("quit");
        assert("show"@.len() != "sync_all"@.len());
        assert("quit"@.len() != "sync_all"@.len());
        assert("show"@[0] != "quit"@[0]);
    }
    match strip_prefix(id, "recent:") {
        Some(g) => {
            return MenuAction::SyncGame(g);
        },
        None => {},
    }
    if crate::text::str_eq(id, "show") {
        MenuAction::ShowWindow
    } else if crate::text::str_eq(id, "sync_all") {
        MenuAction::SyncAll
    } else if crate::text::str_eq(id, "quit") {
        MenuAction::Quit
    } else {
        MenuAction::Nothing
    }
}

} // verus!
