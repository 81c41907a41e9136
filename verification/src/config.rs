//! The configuration document and the runtime bookkeeping kept beside it:
//! games and backends by identity, the default backend, credential
//! encoding before the document is stored, per-game status, and the set of
//! games whose sync is under way.

use crate::crypto::{
    answer_for, answers_view, bytes_opt, ciphertext, ciphertext_of, decrypt_with, decrypt_with_spec,
    encrypt_spec, is_already_protected, is_protected_spec, seal, seal_spec,
};
use crate::error::AppError;
use crate::keymap::KeyMap;
use crate::model::{BackendConfig, ConfigDoc, GameProfile, GameSyncStatus, S3Config, SyncStateKind, WebDAVConfig};
use crate::text::{concat2, owned, str_eq};
use vstd::prelude::*;
use vstd::utf8::encode_utf8;

verus! {

broadcast use vstd::string::group_string_axioms;

// ---------------------------------------------------------------------------
// Games
// ---------------------------------------------------------------------------

/// `i` is the first game with id `id`.
pub open spec fn first_game_at(gs: Seq<GameProfile>, id: Seq<char>, i: int) -> bool {
    &&& 0 <= i < gs.len()
    &&& gs[i].id@ == id
    &&& forall|j: int| 0 <= j < i ==> gs[j].id@ != id
}

/// No game has id `id`.
pub open spec fn no_game(gs: Seq<GameProfile>, id: Seq<char>) -> bool {
    forall|j: int| 0 <= j < gs.len() ==> gs[j].id@ != id
}

/// The games after saving `g`: it replaces the first game with its id, or
/// is appended.
pub open spec fn upsert_games(gs: Seq<GameProfile>, g: GameProfile) -> Seq<GameProfile> {
    if exists|i: int| first_game_at(gs, g.id@, i) {
        gs.update(choose|i: int| first_game_at(gs, g.id@, i), g)
    } else {
        gs.push(g)
    }
}

/// The games without those with id `id`, in order.
pub open spec fn games_without(gs: Seq<GameProfile>, id: Seq<char>) -> Seq<GameProfile>
    decreases gs.len(),
{
    if gs.len() == 0 {
        gs
    } else if gs.last().id@ == id {
        games_without(gs.drop_last(), id)
    } else {
        games_without(gs.drop_last(), id).push(gs.last())
    }
}

fn find_game(gs: &Vec<GameProfile>, id: &str) -> (r: Option<usize>)
    ensures
        match r {
            Some(i) => first_game_at(gs@, id@, i as int),
            None => no_game(gs@, id@),
        },
{
    let mut i: usize = 0;
    while i < gs.len()
        invariant
            i <= gs@.len(),
            forall|j: int| 0 <= j < i ==> gs@[j].id@ != id@,
        decreases gs@.len() - i,
    {
        if str_eq(gs[i].id.as_str(), id) {
            return Some(i);
        }
        i = i + 1;
    }
    None
}

proof fn lemma_first_game_unique(gs: Seq<GameProfile>, id: Seq<char>, i: int, j: int)
    requires
        first_game_at(gs, id, i),
        first_game_at(gs, id, j),
    ensures
        i == j,
{
}

/// Saves a game: it replaces the game with the same id, or is added.
pub fn upsert_game(doc: &mut ConfigDoc, game: GameProfile)
    ensures
        final(doc).games@ == upsert_games(old(doc).games@, game),
        final(doc).backends == old(doc).backends,
        final(doc).settings == old(doc).settings,
{
    match find_game(&doc.games, game.id.as_str()) {
        Some(i) => {
            proof {
                let c = choose|k: int| first_game_at(old(doc).games@, game.id@, k);
                lemma_first_game_unique(old(doc).games@, game.id@, i as int, c);
            }
            doc.games.set(i, game);
        },
        None => {
            doc.games.push(game);
        },
    }
}

/// Saves a game, giving it a fresh random id when it has none; returns the
/// game as saved, or the failure of the random source (and then changes
/// nothing).
pub fn save_game(doc: &mut ConfigDoc, game: GameProfile) -> (r: Result<GameProfile, AppError>)
    ensures
        game.id@.len() > 0 ==> r is Ok,
        r matches Ok(saved) ==> {
            &&& game.id@.len() > 0 ==> saved.id == game.id
            &&& game.id@.len() == 0 ==> exists|b: Seq<u8>|
                b.len() == 16 && saved.id@ == crate::clock::uuid_text(crate::clock::v4_bytes(b))
            &&& saved.same_as(GameProfile { id: saved.id, ..game })
            &&& exists|g: GameProfile|
                #[trigger] g.same_as(saved) && final(doc).games@ == upsert_games(old(doc).games@, g)
        },
        r matches Err(e) ==> (game.id@.len() == 0 && *final(doc) == *old(doc) && (e matches AppError::Other(
            m,
        ) && exists|t: Seq<char>| m@ == "random source: "@ + t)),
        final(doc).backends == old(doc).backends,
        final(doc).settings == old(doc).settings,
{
    let mut g = game;
    if g.id.unicode_len() == 0 {
        g.id = match crate::clock::new_uuid() {
            Ok(id) => id,
            Err(e) => {
                return Err(e);
            },
        };
    }
    let out = g.clone();
    upsert_game(doc, g);
    assert(g.same_as(out));
    Ok(out)
}

/// Deletes every game with id `id`; refuses when there is none.
pub fn delete_game(doc: &mut ConfigDoc, id: &str) -> (r: Result<(), AppError>)
    ensures
        final(doc).games@ == games_without(old(doc).games@, id@),
        r is Err <==> no_game(old(doc).games@, id@),
        r is Err ==> (r matches Err(AppError::GameNotFound(m)) && m@ == id@),
        final(doc).backends == old(doc).backends,
        final(doc).settings == old(doc).settings,
{
    let n = doc.games.len();
    let mut kept: Vec<GameProfile> = Vec::new();
    let ghost gs = doc.games@;
    let mut found = false;
    let mut i: usize = 0;
    let mut games: Vec<GameProfile> = Vec::new();
    std::mem::swap(&mut games, &mut doc.games);
    assert(games@ == gs);
    while games.len() > 0
        invariant
            n == gs.len(),
            i + games@.len() == gs.len(),
            games@ == gs.subrange(i as int, gs.len() as int),
            kept@ == games_without(gs.subrange(0, i as int), id@),
            found == !no_game(gs.subrange(0, i as int), id@),
        decreases games@.len(),
    {
        let g = games.remove(0);
        assert(g == gs[i as int]);
        assert(gs.subrange(0, i + 1).drop_last() =~= gs.subrange(0, i as int));
        assert(gs.subrange(0, i + 1).last() == g);
        if str_eq(g.id.as_str(), id) {
            found = true;
            assert(gs.subrange(0, i + 1)[i as int].id@ == id@);
        } else {
            proof {
                let p0 = gs.subrange(0, i as int);
                let p1 = gs.subrange(0, i + 1);
                assert forall|w: int| 0 <= w < i implies #[trigger] p1[w] == p0[w] by {}
                assert(p1[i as int].id@ != id@);
                assert(no_game(p0, id@) == no_game(p1, id@));
            }
            kept.push(g);
        }
        assert(games@ =~= gs.subrange(i + 1, gs.len() as int));
        i = i + 1;
    }
    assert(gs.subrange(0, gs.len() as int) =~= gs);
    doc.games = kept;
    if !found {
        return Err(AppError::GameNotFound(owned(id)));
    }
    Ok(())
}

/// The game with id `id`.
pub fn get_game<'a>(doc: &'a ConfigDoc, id: &str) -> (r: Result<&'a GameProfile, AppError>)
    ensures
        match r {
            Ok(g) => exists|i: int| first_game_at(doc.games@, id@, i) && *g == doc.games@[i],
            Err(e) => no_game(doc.games@, id@) && (e matches AppError::GameNotFound(m) && m@ == id@),
        },
{
    match find_game(&doc.games, id) {
        Some(i) => Ok(&doc.games[i]),
        None => Err(AppError::GameNotFound(owned(id))),
    }
}

proof fn lemma_first_game_exists(gs: Seq<GameProfile>, id: Seq<char>, j: int)
    requires
        0 <= j < gs.len(),
        gs[j].id@ == id,
    ensures
        exists|i: int| first_game_at(gs, id, i),
    decreases j,
{
    if exists|k: int| 0 <= k < j && gs[k].id@ == id {
        let k = choose|k: int| 0 <= k < j && gs[k].id@ == id;
        lemma_first_game_exists(gs, id, k);
    } else {
        assert(first_game_at(gs, id, j));
    }
}

proof fn lemma_first_backend_exists(bs: Seq<BackendConfig>, name: Seq<char>, j: int)
    requires
        0 <= j < bs.len(),
        bs[j].spec_name() == name,
    ensures
        exists|i: int| first_backend_at(bs, name, i),
    decreases j,
{
    if exists|k: int| 0 <= k < j && bs[k].spec_name() == name {
        let k = choose|k: int| 0 <= k < j && bs[k].spec_name() == name;
        lemma_first_backend_exists(bs, name, k);
    } else {
        assert(first_backend_at(bs, name, j));
    }
}

/// A saved game is what a lookup by its id then finds.
pub proof fn law_saved_game_is_found(gs: Seq<GameProfile>, g: GameProfile)
    ensures
        exists|i: int| first_game_at(upsert_games(gs, g), g.id@, i) && upsert_games(gs, g)[i] == g,
{
    let n = upsert_games(gs, g);
    if exists|i: int| first_game_at(gs, g.id@, i) {
        let i = choose|i: int| first_game_at(gs, g.id@, i);
        assert(first_game_at(n, g.id@, i));
    } else {
        assert forall|j: int| 0 <= j < gs.len() implies gs[j].id@ != g.id@ by {
            if gs[j].id@ == g.id@ {
                lemma_first_game_exists(gs, g.id@, j);
            }
        }
        assert(first_game_at(n, g.id@, gs.len() as int));
    }
}

/// After deleting a game no game with its id is left, and the other games
/// are kept.
pub proof fn law_deleted_game_is_gone(gs: Seq<GameProfile>, id: Seq<char>, h: GameProfile)
    ensures
        no_game(games_without(gs, id), id),
        gs.contains(h) && h.id@ != id ==> games_without(gs, id).contains(h),
    decreases gs.len(),
{
    if gs.len() > 0 {
        law_deleted_game_is_gone(gs.drop_last(), id, h);
        let r = games_without(gs.drop_last(), id);
        if gs.last().id@ != id {
            assert forall|j: int| 0 <= j < r.push(gs.last()).len() implies r.push(gs.last())[j].id@
                != id by {
                if j < r.len() {
                    assert(r.push(gs.last())[j] == r[j]);
                }
            }
        }
        if gs.contains(h) && h.id@ != id {
            let w = gs.index_of(h);
            if w < gs.len() - 1 {
                assert(gs.drop_last()[w] == h);
                let v = r.index_of(h);
                if gs.last().id@ != id {
                    assert(r.push(gs.last())[v] == h);
                }
            } else {
                assert(r.push(gs.last())[r.len() as int] == h);
            }
        }
    }
}

// ---------------------------------------------------------------------------
// Backends
// ---------------------------------------------------------------------------

/// `i` is the first backend named `name`.
pub open spec fn first_backend_at(bs: Seq<BackendConfig>, name: Seq<char>, i: int) -> bool {
    &&& 0 <= i < bs.len()
    &&& bs[i].spec_name() == name
    &&& forall|j: int| 0 <= j < i ==> bs[j].spec_name() != name
}

/// No backend is named `name`.
pub open spec fn no_backend(bs: Seq<BackendConfig>, name: Seq<char>) -> bool {
    forall|j: int| 0 <= j < bs.len() ==> bs[j].spec_name() != name
}

/// The backends after saving `b`: it replaces the first backend with its
/// name, or is appended.
pub open spec fn upsert_backends(bs: Seq<BackendConfig>, b: BackendConfig) -> Seq<BackendConfig> {
    if exists|i: int| first_backend_at(bs, b.spec_name(), i) {
        bs.update(choose|i: int| first_backend_at(bs, b.spec_name(), i), b)
    } else {
        bs.push(b)
    }
}

/// The backends not named `name`, in order.
pub open spec fn backends_without(bs: Seq<BackendConfig>, name: Seq<char>) -> Seq<BackendConfig>
    decreases bs.len(),
{
    if bs.len() == 0 {
        bs
    } else if bs.last().spec_name() == name {
        backends_without(bs.drop_last(), name)
    } else {
        backends_without(bs.drop_last(), name).push(bs.last())
    }
}

fn find_backend(bs: &Vec<BackendConfig>, name: &str) -> (r: Option<usize>)
    ensures
        match r {
            Some(i) => first_backend_at(bs@, name@, i as int),
            None => no_backend(bs@, name@),
        },
{
    let mut i: usize = 0;
    while i < bs.len()
        invariant
            i <= bs@.len(),
            forall|j: int| 0 <= j < i ==> bs@[j].spec_name() != name@,
        decreases bs@.len() - i,
    {
        if str_eq(bs[i].name(), name) {
            return Some(i);
        }
        i = i + 1;
    }
    None
}

/// Saves a backend: it replaces the backend with the same name, or is
/// added.
pub fn save_backend(doc: &mut ConfigDoc, backend: BackendConfig)
    ensures
        final(doc).backends@ == upsert_backends(old(doc).backends@, backend),
        final(doc).games == old(doc).games,
        final(doc).settings == old(doc).settings,
{
    match find_backend(&doc.backends, backend.name()) {
        Some(i) => {
            proof {
                let c = choose|k: int| first_backend_at(old(doc).backends@, backend.spec_name(), k);
                assert(c == i);
            }
            doc.backends.set(i, backend);
        },
        None => {
            doc.backends.push(backend);
        },
    }
}

/// Deletes the backends named `name`, refusing when there is none; a
/// default backend of that name stops being the default.
pub fn delete_backend(doc: &mut ConfigDoc, name: &str) -> (r: Result<(), AppError>)
    ensures
        r is Err <==> no_backend(old(doc).backends@, name@),
        r is Err ==> (r matches Err(AppError::BackendNotFound(m)) && m@ == name@) && *final(doc)
            == *old(doc),
        r is Ok ==> {
            &&& final(doc).backends@ == backends_without(old(doc).backends@, name@)
            &&& final(doc).settings.default_backend == (match old(
                doc,
            ).settings.default_backend {
                Some(d) => if d@ == name@ {
                    None
                } else {
                    Some(d)
                },
                None => None,
            })
        },
        final(doc).games == old(doc).games,
{
    if find_backend(&doc.backends, name).is_none() {
        return Err(AppError::BackendNotFound(owned(name)));
    }
    let n = doc.backends.len();
    let ghost bs = doc.backends@;
    let mut backends: Vec<BackendConfig> = Vec::new();
    std::mem::swap(&mut backends, &mut doc.backends);
    let mut kept: Vec<BackendConfig> = Vec::new();
    let mut i: usize = 0;
    while backends.len() > 0
        invariant
            n == bs.len(),
            i + backends@.len() == bs.len(),
            backends@ == bs.subrange(i as int, bs.len() as int),
            kept@ == backends_without(bs.subrange(0, i as int), name@),
        decreases backends@.len(),
    {
        let b = backends.remove(0);
        assert(b == bs[i as int]);
        assert(bs.subrange(0, i + 1).drop_last() =~= bs.subrange(0, i as int));
        assert(bs.subrange(0, i + 1).last() == b);
        if !str_eq(b.name(), name) {
            kept.push(b);
        }
        assert(backends@ =~= bs.subrange(i + 1, bs.len() as int));
        i = i + 1;
    }
    assert(bs.subrange(0, bs.len() as int) =~= bs);
    doc.backends = kept;
    let clear = match &doc.settings.default_backend {
        Some(d) => str_eq(d.as_str(), name),
        None => false,
    };
    if clear {
        doc.settings.default_backend = None;
    }
    Ok(())
}

/// The backend named `name`.
pub fn get_backend<'a>(doc: &'a ConfigDoc, name: &str) -> (r: Result<&'a BackendConfig, AppError>)
    ensures
        match r {
            Ok(b) => exists|i: int| first_backend_at(doc.backends@, name@, i) && *b == doc.backends@[i],
            Err(e) => no_backend(doc.backends@, name@) && (e matches AppError::BackendNotFound(m)
                && m@ == name@),
        },
{
    match find_backend(&doc.backends, name) {
        Some(i) => Ok(&doc.backends[i]),
        None => Err(AppError::BackendNotFound(owned(name))),
    }
}

/// The name of the backend used when a game names none: the configured
/// default, else the first backend.
pub open spec fn default_backend_name(doc: ConfigDoc) -> Option<Seq<char>> {
    match doc.settings.default_backend {
        Some(d) => Some(d@),
        None => if doc.backends@.len() > 0 {
            Some(doc.backends@[0].spec_name())
        } else {
            None
        },
    }
}

/// The backend used when a game names none.
pub fn default_backend<'a>(doc: &'a ConfigDoc) -> (r: Result<&'a BackendConfig, AppError>)
    ensures
        match default_backend_name(*doc) {
            None => r matches Err(AppError::Config(m)) && m@ == "no backend configured"@,
            Some(n) => match r {
                Ok(b) => exists|i: int| first_backend_at(doc.backends@, n, i) && *b
                    == doc.backends@[i],
                Err(e) => no_backend(doc.backends@, n) && (e matches AppError::BackendNotFound(m)
                    && m@ == n),
            },
        },
{
    let name: &str = match &doc.settings.default_backend {
        Some(d) => d.as_str(),
        None => {
            if doc.backends.len() == 0 {
                return Err(AppError::Config(owned("no backend configured")));
            }
            doc.backends[0].name()
        },
    };
    get_backend(doc, name)
}

/// A saved backend is what a lookup by its name then finds.
pub proof fn law_saved_backend_is_found(bs: Seq<BackendConfig>, b: BackendConfig)
    ensures
        exists|i: int|
            first_backend_at(upsert_backends(bs, b), b.spec_name(), i) && upsert_backends(bs, b)[i]
                == b,
{
    let n = upsert_backends(bs, b);
    if exists|i: int| first_backend_at(bs, b.spec_name(), i) {
        let i = choose|i: int| first_backend_at(bs, b.spec_name(), i);
        assert(first_backend_at(n, b.spec_name(), i));
    } else {
        assert forall|j: int| 0 <= j < bs.len() implies bs[j].spec_name() != b.spec_name() by {
            if bs[j].spec_name() == b.spec_name() {
                lemma_first_backend_exists(bs, b.spec_name(), j);
            }
        }
        assert(first_backend_at(n, b.spec_name(), bs.len() as int));
    }
}

/// After deleting a backend no backend of that name is left.
pub proof fn law_deleted_backend_is_gone(bs: Seq<BackendConfig>, name: Seq<char>)
    ensures
        no_backend(backends_without(bs, name), name),
    decreases bs.len(),
{
    if bs.len() > 0 {
        law_deleted_backend_is_gone(bs.drop_last(), name);
        let r = backends_without(bs.drop_last(), name);
        if bs.last().spec_name() != name {
            assert forall|j: int| 0 <= j < r.push(bs.last()).len() implies r.push(
                bs.last(),
            )[j].spec_name() != name by {
                if j < r.len() {
                    assert(r.push(bs.last())[j] == r[j]);
                }
            }
        }
    }
}

// ---------------------------------------------------------------------------
// Credentials at rest
// ---------------------------------------------------------------------------

/// The ciphertext the protection service produced for a secret: the first
/// entry of `sealed` for that secret.
pub open spec fn cipher_for(sealed: Seq<(Seq<char>, Seq<u8>)>, plain: Seq<char>) -> Option<Seq<u8>>
    decreases sealed.len(),
{
    if sealed.len() == 0 {
        None
    } else if sealed[0].0 == plain {
        Some(sealed[0].1)
    } else {
        cipher_for(sealed.drop_first(), plain)
    }
}

/// Pairs of text and bytes as plain values.
pub open spec fn pairs_view(v: Seq<(String, Vec<u8>)>) -> Seq<(Seq<char>, Seq<u8>)> {
    v.map_values(|e: (String, Vec<u8>)| (e.0@, e.1@))
}

/// A secret as stored, given the ciphertexts the protection service
/// produced (by secret): a secret that already carries a marker is kept,
/// any other is sealed with its ciphertext, or encoded without one.
pub open spec fn protect_with(s: Seq<char>, sealed: Seq<(Seq<char>, Seq<u8>)>) -> Seq<char> {
    if is_protected_spec(s) {
        s
    } else {
        seal_spec(s, cipher_for(sealed, s))
    }
}

/// A secret as stored where no protection service is at hand.
pub open spec fn protect(s: Seq<char>) -> Seq<char> {
    protect_with(s, Seq::empty())
}

/// A secret as used, where a protection service may be at hand with its
/// answers: decoded when it carries a marker and decodes; a marked secret
/// that does not decode, and an unmarked (legacy plaintext) one, are kept
/// as they are.
pub open spec fn unprotect_with(
    s: Seq<char>,
    service: bool,
    answers: Seq<(Seq<char>, Result<Seq<u8>, Seq<char>>)>,
) -> Seq<char> {
    if is_protected_spec(s) {
        match decrypt_with_spec(s, service, answers) {
            Ok(v) => v,
            Err(_) => s,
        }
    } else {
        s
    }
}

/// A secret as used where no protection service is at hand.
pub open spec fn unprotect(s: Seq<char>) -> Seq<char> {
    unprotect_with(s, false, Seq::empty())
}

/// `b` is `a` with `f` applied to each secret field, everything else equal.
pub open spec fn secrets_mapped(
    a: BackendConfig,
    b: BackendConfig,
    f: spec_fn(Seq<char>) -> Seq<char>,
) -> bool {
    match a {
        BackendConfig::S3 { name: n1, s3: x } => match b {
            BackendConfig::S3 { name: n2, s3: y } => {
                &&& n1 == n2
                &&& y.endpoint == x.endpoint
                &&& y.region == x.region
                &&& y.bucket == x.bucket
                &&& y.prefix == x.prefix
                &&& y.path_style == x.path_style
                &&& y.access_key_id@ == f(x.access_key_id@)
                &&& y.secret_access_key@ == f(x.secret_access_key@)
            },
            _ => false,
        },
        BackendConfig::Webdav { name: n1, webdav: x } => match b {
            BackendConfig::Webdav { name: n2, webdav: y } => {
                &&& n1 == n2
                &&& y.url == x.url
                &&& y.username == x.username
                &&& y.prefix == x.prefix
                &&& y.password@ == f(x.password@)
            },
            _ => false,
        },
    }
}

fn find_cipher(sealed: &Vec<(String, Vec<u8>)>, plain: &str) -> (r: Option<Vec<u8>>)
    ensures
        bytes_opt(r) == cipher_for(pairs_view(sealed@), plain@),
{
    let ghost v = pairs_view(sealed@);
    let mut i: usize = 0;
    assert(v.subrange(0, v.len() as int) =~= v);
    while i < sealed.len()
        invariant
            v == pairs_view(sealed@),
            i <= sealed@.len(),
            cipher_for(v, plain@) == cipher_for(v.subrange(i as int, v.len() as int), plain@),
        decreases sealed@.len() - i,
    {
        let ghost rest = v.subrange(i as int, v.len() as int);
        assert(rest[0] == v[i as int]);
        assert(rest.drop_first() =~= v.subrange(i + 1, v.len() as int));
        if crate::text::str_eq(sealed[i].0.as_str(), plain) {
            let mut out: Vec<u8> = Vec::new();
            let mut k: usize = 0;
            let b = &sealed[i].1;
            while k < b.len()
                invariant
                    k <= b@.len(),
                    out@ == b@.subrange(0, k as int),
                decreases b@.len() - k,
            {
                out.push(b[k]);
                assert(b@.subrange(0, k + 1) =~= b@.subrange(0, k as int).push(b@[k as int]));
                k = k + 1;
            }
            assert(b@.subrange(0, b@.len() as int) =~= b@);
            return Some(out);
        }
        i = i + 1;
    }
    assert(v.subrange(i as int, v.len() as int) =~= Seq::<(Seq<char>, Seq<u8>)>::empty());
    None
}

fn protect_secret(s: &String, sealed: &Vec<(String, Vec<u8>)>) -> (r: String)
    ensures
        r@ == protect_with(s@, pairs_view(sealed@)),
{
    if is_already_protected(s.as_str()) {
        s.clone()
    } else {
        let c = find_cipher(sealed, s.as_str());
        seal(s.as_str(), c)
    }
}

/// The secrets a write seals: those without a marker that are not empty.
pub open spec fn seal_request(s: Seq<char>) -> Seq<Seq<char>> {
    if !is_protected_spec(s) && s.len() > 0 {
        seq![s]
    } else {
        Seq::empty()
    }
}

/// The secrets of one backend that a write seals, in field order.
pub open spec fn backend_seal_requests(b: BackendConfig) -> Seq<Seq<char>> {
    match b {
        BackendConfig::S3 { s3, .. } => seal_request(s3.access_key_id@) + seal_request(
            s3.secret_access_key@,
        ),
        BackendConfig::Webdav { webdav, .. } => seal_request(webdav.password@),
    }
}

/// The secrets of all backends that a write seals, in order.
pub open spec fn seal_requests(bs: Seq<BackendConfig>) -> Seq<Seq<char>>
    decreases bs.len(),
{
    if bs.len() == 0 {
        Seq::empty()
    } else {
        seal_requests(bs.drop_last()) + backend_seal_requests(bs.last())
    }
}

fn push_seal_request(out: &mut Vec<String>, s: &String)
    ensures
        final(out)@.map_values(|w: String| w@) == old(out)@.map_values(|w: String| w@)
            + seal_request(s@),
{
    let ghost before = out@.map_values(|w: String| w@);
    if !is_already_protected(s.as_str()) && s.unicode_len() > 0 {
        out.push(s.clone());
        assert(out@.map_values(|w: String| w@) =~= before + seal_request(s@));
    } else {
        assert(out@.map_values(|w: String| w@) =~= before + seal_request(s@));
    }
}

/// The secrets that writing the configuration seals, in order: the
/// platform's protection service is asked for their ciphertext before
/// `encrypt_in_place_with`.
pub fn secrets_to_seal(backends: &Vec<BackendConfig>) -> (r: Vec<String>)
    ensures
        r@.map_values(|w: String| w@) == seal_requests(backends@),
{
    let mut out: Vec<String> = Vec::new();
    let mut i: usize = 0;
    assert(backends@.subrange(0, 0) =~= Seq::<BackendConfig>::empty());
    assert(out@.map_values(|w: String| w@) =~= Seq::<Seq<char>>::empty());
    while i < backends.len()
        invariant
            i <= backends@.len(),
            out@.map_values(|w: String| w@) == seal_requests(backends@.subrange(0, i as int)),
        decreases backends@.len() - i,
    {
        match &backends[i] {
            BackendConfig::S3 { s3, .. } => {
                push_seal_request(&mut out, &s3.access_key_id);
                push_seal_request(&mut out, &s3.secret_access_key);
            },
            BackendConfig::Webdav { webdav, .. } => {
                push_seal_request(&mut out, &webdav.password);
            },
        }
        proof {
            let p = backends@.subrange(0, i + 1);
            assert(p.drop_last() =~= backends@.subrange(0, i as int));
            assert(p.last() == backends@[i as int]);
        }
        i = i + 1;
    }
    assert(backends@.subrange(0, backends@.len() as int) =~= backends@);
    out
}

/// Seals the secret fields of every backend before the configuration is
/// written, with the ciphertexts the platform's protection service produced
/// (by secret); a secret without one is encoded as `gsy0:`, and secrets
/// that already carry a marker are left as they are.
pub fn encrypt_in_place_with(backends: &mut Vec<BackendConfig>, sealed: &Vec<(String, Vec<u8>)>)
    ensures
        final(backends)@.len() == old(backends)@.len(),
        forall|i: int|
            0 <= i < old(backends)@.len() ==> secrets_mapped(
                #[trigger] old(backends)@[i],
                final(backends)@[i],
                |s: Seq<char>| protect_with(s, pairs_view(sealed@)),
            ),
{
    let ghost orig = backends@;
    let mut i: usize = 0;
    while i < backends.len()
        invariant
            i <= backends@.len(),
            backends@.len() == orig.len(),
            forall|j: int| i <= j < orig.len() ==> backends@[j] == orig[j],
            forall|j: int|
                0 <= j < i ==> secrets_mapped(
                    #[trigger] orig[j],
                    backends@[j],
                    |s: Seq<char>| protect_with(s, pairs_view(sealed@)),
                ),
        decreases orig.len() - i,
    {
        let nb = match &backends[i] {
            BackendConfig::S3 { name, s3 } => BackendConfig::S3 {
                name: name.clone(),
                s3: S3Config {
                    endpoint: s3.endpoint.clone(),
                    region: s3.region.clone(),
                    bucket: s3.bucket.clone(),
                    access_key_id: protect_secret(&s3.access_key_id, sealed),
                    secret_access_key: protect_secret(&s3.secret_access_key, sealed),
                    prefix: s3.prefix.clone(),
                    path_style: s3.path_style,
                },
            },
            BackendConfig::Webdav { name, webdav } => BackendConfig::Webdav {
                name: name.clone(),
                webdav: WebDAVConfig {
                    url: webdav.url.clone(),
                    username: webdav.username.clone(),
                    password: protect_secret(&webdav.password, sealed),
                    prefix: webdav.prefix.clone(),
                },
            },
        };
        backends.set(i, nb);
        i = i + 1;
    }
}

/// Encodes the secret fields of every backend before the configuration is
/// written where no protection service is at hand; secrets that already
/// carry a marker are left as they are, so encoding twice changes nothing.
pub fn encrypt_in_place(backends: &mut Vec<BackendConfig>)
    ensures
        final(backends)@.len() == old(backends)@.len(),
        forall|i: int|
            0 <= i < old(backends)@.len() ==> secrets_mapped(
                #[trigger] old(backends)@[i],
                final(backends)@[i],
                |s: Seq<char>| protect(s),
            ),
{
    let none: Vec<(String, Vec<u8>)> = Vec::new();
    assert(pairs_view(none@) =~= Seq::<(Seq<char>, Seq<u8>)>::empty());
    encrypt_in_place_with(backends, &none);
}

/// The ciphertexts that reading the configuration asks the protection
/// service to open: each `gsy1:` secret whose payload decodes, with that
/// ciphertext.
pub open spec fn open_request(s: Seq<char>) -> Seq<(Seq<char>, Seq<u8>)> {
    match ciphertext_of(s) {
        Some(c) => seq![(s, c)],
        None => Seq::empty(),
    }
}

/// The open requests of one backend, in field order.
pub open spec fn backend_open_requests(b: BackendConfig) -> Seq<(Seq<char>, Seq<u8>)> {
    match b {
        BackendConfig::S3 { s3, .. } => open_request(s3.access_key_id@) + open_request(
            s3.secret_access_key@,
        ),
        BackendConfig::Webdav { webdav, .. } => open_request(webdav.password@),
    }
}

/// The open requests of all backends, in order.
pub open spec fn open_requests(bs: Seq<BackendConfig>) -> Seq<(Seq<char>, Seq<u8>)>
    decreases bs.len(),
{
    if bs.len() == 0 {
        Seq::empty()
    } else {
        open_requests(bs.drop_last()) + backend_open_requests(bs.last())
    }
}

fn push_open_request(out: &mut Vec<(String, Vec<u8>)>, s: &String)
    ensures
        pairs_view(final(out)@) == pairs_view(old(out)@) + open_request(s@),
{
    let ghost before = pairs_view(out@);
    match ciphertext(s.as_str()) {
        Some(c) => {
            out.push((s.clone(), c));
            assert(pairs_view(out@) =~= before + open_request(s@));
        },
        None => {
            assert(pairs_view(out@) =~= before + open_request(s@));
        },
    }
}

/// The ciphertexts the platform's protection service is asked to open when
/// the configuration is read, with the stored secrets they come from, in
/// order; its answers go to `decrypt_in_place_with`.
pub fn ciphertexts_to_open(backends: &Vec<BackendConfig>) -> (r: Vec<(String, Vec<u8>)>)
    ensures
        pairs_view(r@) == open_requests(backends@),
{
    let mut out: Vec<(String, Vec<u8>)> = Vec::new();
    let mut i: usize = 0;
    assert(backends@.subrange(0, 0) =~= Seq::<BackendConfig>::empty());
    assert(pairs_view(out@) =~= Seq::<(Seq<char>, Seq<u8>)>::empty());
    while i < backends.len()
        invariant
            i <= backends@.len(),
            pairs_view(out@) == open_requests(backends@.subrange(0, i as int)),
        decreases backends@.len() - i,
    {
        match &backends[i] {
            BackendConfig::S3 { s3, .. } => {
                push_open_request(&mut out, &s3.access_key_id);
                push_open_request(&mut out, &s3.secret_access_key);
            },
            BackendConfig::Webdav { webdav, .. } => {
                push_open_request(&mut out, &webdav.password);
            },
        }
        proof {
            let p = backends@.subrange(0, i + 1);
            assert(p.drop_last() =~= backends@.subrange(0, i as int));
            assert(p.last() == backends@[i as int]);
        }
        i = i + 1;
    }
    assert(backends@.subrange(0, backends@.len() as int) =~= backends@);
    out
}

/// The warning about one secret, if it carries a marker and does not decode.
pub open spec fn secret_warning_with(
    label: Seq<char>,
    s: Seq<char>,
    service: bool,
    answers: Seq<(Seq<char>, Result<Seq<u8>, Seq<char>>)>,
) -> Seq<Seq<char>> {
    if is_protected_spec(s) {
        match decrypt_with_spec(s, service, answers) {
            Ok(_) => Seq::empty(),
            Err(m) => seq![label + m],
        }
    } else {
        Seq::empty()
    }
}

/// Warnings for the secrets of one backend that carry a marker but do not
/// decode.
pub open spec fn backend_decrypt_warnings_with(
    b: BackendConfig,
    service: bool,
    answers: Seq<(Seq<char>, Result<Seq<u8>, Seq<char>>)>,
) -> Seq<Seq<char>> {
    match b {
        BackendConfig::S3 { s3, .. } => secret_warning_with(
            "decrypt access_key_id: "@,
            s3.access_key_id@,
            service,
            answers,
        ) + secret_warning_with("decrypt secret: "@, s3.secret_access_key@, service, answers),
        BackendConfig::Webdav { webdav, .. } => secret_warning_with(
            "decrypt webdav pw: "@,
            webdav.password@,
            service,
            answers,
        ),
    }
}

/// The warnings of all backends, in order.
pub open spec fn decrypt_warnings_with(
    bs: Seq<BackendConfig>,
    service: bool,
    answers: Seq<(Seq<char>, Result<Seq<u8>, Seq<char>>)>,
) -> Seq<Seq<char>>
    decreases bs.len(),
{
    if bs.len() == 0 {
        Seq::empty()
    } else {
        decrypt_warnings_with(bs.drop_last(), service, answers) + backend_decrypt_warnings_with(
            bs.last(),
            service,
            answers,
        )
    }
}

/// The warnings of all backends where no protection service is at hand.
pub open spec fn decrypt_warnings(bs: Seq<BackendConfig>) -> Seq<Seq<char>> {
    decrypt_warnings_with(bs, false, Seq::empty())
}

fn unprotect_secret(
    label: &str,
    s: &String,
    service: bool,
    answers: &Vec<(String, Result<Vec<u8>, String>)>,
    warnings: &mut Vec<String>,
) -> (r: String)
    ensures
        r@ == unprotect_with(s@, service, answers_view(answers@)),
        final(warnings)@.map_values(|w: String| w@) == old(warnings)@.map_values(|w: String| w@)
            + secret_warning_with(label@, s@, service, answers_view(answers@)),
{
    if is_already_protected(s.as_str()) {
        match decrypt_with(s.as_str(), service, answers) {
            Ok(v) => {
                assert(warnings@.map_values(|w: String| w@) =~= warnings@.map_values(|w: String| w@)
                    + Seq::<Seq<char>>::empty());
                v
            },
            Err(e) => {
                let text = e.message();
                let ghost before = warnings@;
                warnings.push(concat2(label, text.as_str()));
                assert(warnings@.map_values(|w: String| w@) =~= before.map_values(|w: String| w@)
                    + secret_warning_with(label@, s@, service, answers_view(answers@)));
                s.clone()
            },
        }
    } else {
        assert(warnings@.map_values(|w: String| w@) =~= warnings@.map_values(|w: String| w@)
            + Seq::<Seq<char>>::empty());
        s.clone()
    }
}

/// Decodes the secret fields of every backend after the configuration is
/// read, where the platform may have a protection service (`service`) that
/// answered for the ciphertexts `ciphertexts_to_open` listed.  Unmarked
/// secrets (written before encoding existed) pass through; a marked secret
/// that cannot be decoded is kept as it is and reported in the returned
/// warnings.
pub fn decrypt_in_place_with(
    backends: &mut Vec<BackendConfig>,
    service: bool,
    answers: &Vec<(String, Result<Vec<u8>, String>)>,
) -> (warnings: Vec<String>)
    ensures
        final(backends)@.len() == old(backends)@.len(),
        forall|i: int|
            0 <= i < old(backends)@.len() ==> secrets_mapped(
                #[trigger] old(backends)@[i],
                final(backends)@[i],
                |s: Seq<char>| unprotect_with(s, service, answers_view(answers@)),
            ),
        warnings@.map_values(|w: String| w@) == decrypt_warnings_with(
            old(backends)@,
            service,
            answers_view(answers@),
        ),
{
    let ghost orig = backends@;
    let ghost av = answers_view(answers@);
    let mut warnings: Vec<String> = Vec::new();
    let mut i: usize = 0;
    assert(orig.subrange(0, 0) =~= Seq::<BackendConfig>::empty());
    while i < backends.len()
        invariant
            i <= backends@.len(),
            backends@.len() == orig.len(),
            av == answers_view(answers@),
            forall|j: int| i <= j < orig.len() ==> backends@[j] == orig[j],
            forall|j: int|
                0 <= j < i ==> secrets_mapped(
                    #[trigger] orig[j],
                    backends@[j],
                    |s: Seq<char>| unprotect_with(s, service, av),
                ),
            warnings@.map_values(|w: String| w@) == decrypt_warnings_with(
                orig.subrange(0, i as int),
                service,
                av,
            ),
        decreases orig.len() - i,
    {
        let ghost before = warnings@.map_values(|w: String| w@);
        let nb = match &backends[i] {
            BackendConfig::S3 { name, s3 } => {
                let ak = unprotect_secret(
                    "decrypt access_key_id: ",
                    &s3.access_key_id,
                    service,
                    answers,
                    &mut warnings,
                );
                let sk = unprotect_secret(
                    "decrypt secret: ",
                    &s3.secret_access_key,
                    service,
                    answers,
                    &mut warnings,
                );
                BackendConfig::S3 {
                    name: name.clone(),
                    s3: S3Config {
                        endpoint: s3.endpoint.clone(),
                        region: s3.region.clone(),
                        bucket: s3.bucket.clone(),
                        access_key_id: ak,
                        secret_access_key: sk,
                        prefix: s3.prefix.clone(),
                        path_style: s3.path_style,
                    },
                }
            },
            BackendConfig::Webdav { name, webdav } => {
                let pw = unprotect_secret(
                    "decrypt webdav pw: ",
                    &webdav.password,
                    service,
                    answers,
                    &mut warnings,
                );
                BackendConfig::Webdav {
                    name: name.clone(),
                    webdav: WebDAVConfig {
                        url: webdav.url.clone(),
                        username: webdav.username.clone(),
                        password: pw,
                        prefix: webdav.prefix.clone(),
                    },
                }
            },
        };
        proof {
            let p = orig.subrange(0, i + 1);
            assert(p.drop_last() =~= orig.subrange(0, i as int));
            assert(p.last() == orig[i as int]);
            assert(warnings@.map_values(|w: String| w@) =~= before + backend_decrypt_warnings_with(
                orig[i as int],
                service,
                av,
            ));
        }
        backends.set(i, nb);
        i = i + 1;
    }
    assert(orig.subrange(0, orig.len() as int) =~= orig);
    warnings
}

/// Decodes the secret fields of every backend after the configuration is
/// read, where no protection service is at hand.  Unmarked secrets (written
/// before encoding existed) pass through; a marked secret that cannot be
/// decoded is kept as it is and reported in the returned warnings.
pub fn decrypt_in_place(backends: &mut Vec<BackendConfig>) -> (warnings: Vec<String>)
    ensures
        final(backends)@.len() == old(backends)@.len(),
        forall|i: int|
            0 <= i < old(backends)@.len() ==> secrets_mapped(
                #[trigger] old(backends)@[i],
                final(backends)@[i],
                |s: Seq<char>| unprotect(s),
            ),
        warnings@.map_values(|w: String| w@) == decrypt_warnings(old(backends)@),
{
    let none: Vec<(String, Result<Vec<u8>, String>)> = Vec::new();
    assert(answers_view(none@) =~= Seq::<(Seq<char>, Result<Seq<u8>, Seq<char>>)>::empty());
    decrypt_in_place_with(backends, false, &none)
}

/// Storing the configuration and reading it back gives every secret back
/// as it was, for secrets that do not themselves look encoded.
pub proof fn law_secret_round_trip(s: Seq<char>)
    requires
        !is_protected_spec(s),
    ensures
        unprotect(protect(s)) == s,
{
    crate::crypto::law_decrypt_inverts_encrypt(s);
    if s.len() > 0 {
        crate::crypto::law_encrypted_is_protected(s);
    } else {
        assert(encrypt_spec(s) == s);
    }
}

/// Where a protection service seals secrets and opens what it sealed,
/// storing the configuration and reading it back gives every secret back
/// as it was, also a secret the service failed to seal (stored with the
/// plain marker).
pub proof fn law_secret_round_trip_with_service(
    s: Seq<char>,
    sealed: Seq<(Seq<char>, Seq<u8>)>,
    answers: Seq<(Seq<char>, Result<Seq<u8>, Seq<char>>)>,
)
    requires
        !is_protected_spec(s),
        cipher_for(sealed, s) is Some ==> answer_for(answers, protect_with(s, sealed)) == Some(
            Ok::<Seq<u8>, Seq<char>>(encode_utf8(s)),
        ),
    ensures
        unprotect_with(protect_with(s, sealed), true, answers) == s,
{
    if s.len() == 0 {
        assert(protect_with(s, sealed) == s);
    } else {
        match cipher_for(sealed, s) {
            Some(c) => {
                crate::crypto::law_open_inverts_seal(s, c, answers);
                crate::crypto::law_sealed_is_protected(s, Some(c));
            },
            None => {
                reveal_strlit("gsy0:");
                reveal_strlit("gsy1:");
                let stored = protect_with(s, sealed);
                crate::crypto::law_decrypt_inverts_encrypt(s);
                crate::crypto::law_encrypted_is_protected(s);
                assert(stored.subrange(0, 5) =~= "gsy0:"@);
                assert(stored.subrange(0, 5) != "gsy1:"@) by {
                    assert(stored.subrange(0, 5)[3] != "gsy1:"@[3]);
                }
            },
        }
    }
}

/// Encoding the secrets is idempotent: a second pass (every time the
/// configuration is written) changes nothing, whatever the protection
/// service produced in either pass.
pub proof fn law_protect_idempotent(
    s: Seq<char>,
    first: Seq<(Seq<char>, Seq<u8>)>,
    second: Seq<(Seq<char>, Seq<u8>)>,
)
    ensures
        protect_with(protect_with(s, first), second) == protect_with(s, first),
{
    if !is_protected_spec(s) {
        if s.len() > 0 {
            crate::crypto::law_sealed_is_protected(s, cipher_for(first, s));
        } else {
            assert(seal_spec(s, cipher_for(first, s)) == s);
        }
    }
}

// ---------------------------------------------------------------------------
// Runtime status
// ---------------------------------------------------------------------------

/// A game's status after it enters `state` with `msg`: a game without a
/// status starts from an empty one; leaving the error state clears the last
/// error.
pub open spec fn with_state_spec(
    existing: Option<GameSyncStatus>,
    game_id: Seq<char>,
    state: SyncStateKind,
    msg: Option<Seq<char>>,
    s: GameSyncStatus,
) -> bool {
    &&& s.state == state
    &&& match msg {
        Some(m) => s.message matches Some(x) && x@ == m,
        None => s.message is None,
    }
    &&& match existing {
        Some(e) => {
            &&& s.game_id == e.game_id
            &&& s.local_files == e.local_files
            &&& s.remote_files == e.remote_files
            &&& s.last_sync_at == e.last_sync_at
            &&& s.last_error == (if state == SyncStateKind::Error { e.last_error } else { None })
        },
        None => {
            &&& s.game_id@ == game_id
            &&& s.local_files == 0
            &&& s.remote_files == 0
            &&& s.last_sync_at is None
            &&& s.last_error is None
        },
    }
}

/// The runtime status of every game, by game id.
pub struct StatusBoard {
    pub statuses: KeyMap<GameSyncStatus>,
}

impl StatusBoard {
    pub open spec fn wf(&self) -> bool {
        self.statuses.wf()
    }

    pub open spec fn view(&self) -> Map<Seq<char>, GameSyncStatus> {
        self.statuses.view_map()
    }

    /// No status yet.
    pub fn new() -> (b: Self)
        ensures
            b.wf(),
            b.view() == Map::<Seq<char>, GameSyncStatus>::empty(),
    {
        StatusBoard { statuses: KeyMap::new() }
    }

    /// Records a status under its game id.
    pub fn update(&mut self, s: GameSyncStatus)
        requires
            old(self).wf(),
        ensures
            final(self).wf(),
            final(self).view() == old(self).view().insert(s.game_id@, s),
    {
        let k = s.game_id.clone();
        self.statuses.insert(k, s);
    }

    /// Forgets a game's status.
    pub fn remove(&mut self, game_id: &str)
        requires
            old(self).wf(),
        ensures
            final(self).wf(),
            final(self).view() == old(self).view().remove(game_id@),
    {
        let _ = self.statuses.remove(game_id);
    }

    /// The status of a game.
    pub fn get(&self, game_id: &str) -> (r: Option<&GameSyncStatus>)
        requires
            self.wf(),
        ensures
            r is Some <==> self.view().contains_key(game_id@),
            r matches Some(s) ==> *s == self.view()[game_id@],
    {
        self.statuses.get(game_id)
    }

    /// Every status, by game id.
    pub fn list(&self) -> (r: Vec<GameSyncStatus>)
        ensures
            r@.len() == self.statuses.entries@.len(),
            forall|i: int| 0 <= i < r@.len() ==> #[trigger] r@[i] == self.statuses.entries@[i].1,
    {
        let mut out: Vec<GameSyncStatus> = Vec::new();
        let mut i: usize = 0;
        while i < self.statuses.entries.len()
            invariant
                i <= self.statuses.entries@.len(),
                out@.len() == i,
                forall|j: int| 0 <= j < i ==> #[trigger] out@[j] == self.statuses.entries@[j].1,
            decreases self.statuses.entries@.len() - i,
        {
            out.push(self.statuses.entries[i].1.clone());
            i = i + 1;
        }
        out
    }

    /// Moves a game into `state` with `msg`, and returns the new status.
    pub fn set_state(&mut self, game_id: &str, state: SyncStateKind, msg: Option<&str>) -> (r:
        GameSyncStatus)
        requires
            old(self).wf(),
        ensures
            final(self).wf(),
            with_state_spec(
                if old(self).view().contains_key(game_id@) {
                    Some(old(self).view()[game_id@])
                } else {
                    None
                },
                game_id@,
                state,
                match msg {
                    Some(m) => Some(m@),
                    None => None,
                },
                r,
            ),
            final(self).view() == old(self).view().insert(r.game_id@, r),
    {
        let mut s = match self.statuses.get(game_id) {
            Some(e) => e.clone(),
            None => GameSyncStatus {
                game_id: owned(game_id),
                state,
                message: None,
                local_files: 0,
                remote_files: 0,
                last_sync_at: None,
                last_error: None,
            },
        };
        s.state = state;
        s.message = match msg {
            Some(m) => Some(owned(m)),
            None => None,
        };
        if state != SyncStateKind::Error {
            s.last_error = None;
        }
        let out = s.clone();
        self.update(s);
        out
    }
}

/// A recorded status is what is then read back for its game.
pub proof fn law_status_read_after_write(
    m: Map<Seq<char>, GameSyncStatus>,
    s: GameSyncStatus,
)
    ensures
        m.insert(s.game_id@, s).contains_key(s.game_id@),
        m.insert(s.game_id@, s)[s.game_id@] == s,
{
}

// ---------------------------------------------------------------------------
// Syncs under way
// ---------------------------------------------------------------------------

/// The games whose sync is under way.
pub struct InFlight {
    pub ids: KeyMap<bool>,
}

impl InFlight {
    pub open spec fn wf(&self) -> bool {
        self.ids.wf()
    }

    /// The ids held.
    pub open spec fn view(&self) -> Set<Seq<char>> {
        self.ids.view_map().dom()
    }

    /// Nothing under way.
    pub fn new() -> (f: Self)
        ensures
            f.wf(),
            f.view() == Set::<Seq<char>>::empty(),
    {
        InFlight { ids: KeyMap::new() }
    }

    /// Marks a game as under way; false when it already was (and nothing
    /// changes).
    pub fn try_acquire(&mut self, id: &str) -> (b: bool)
        requires
            old(self).wf(),
        ensures
            final(self).wf(),
            b == !old(self).view().contains(id@),
            final(self).view() == old(self).view().insert(id@),
    {
        if self.ids.contains_key(id) {
            proof {
                assert(old(self).view().insert(id@) =~= old(self).view());
            }
            false
        } else {
            self.ids.insert(owned(id), true);
            proof {
                assert(final(self).view() =~= old(self).view().insert(id@));
            }
            true
        }
    }

    /// Marks a game as no longer under way.
    pub fn release(&mut self, id: &str)
        requires
            old(self).wf(),
        ensures
            final(self).wf(),
            final(self).view() == old(self).view().remove(id@),
    {
        let _ = self.ids.remove(id);
        proof {
            assert(final(self).view() =~= old(self).view().remove(id@));
        }
    }
}

/// A game cannot be marked twice: the second attempt fails until the first
/// is released, after which it succeeds again.
pub proof fn law_in_flight_is_exclusive(held: Set<Seq<char>>, id: Seq<char>)
    ensures
        held.insert(id).contains(id),
        !held.insert(id).remove(id).contains(id),
{
}

// ---------------------------------------------------------------------------
// Export and import
// ---------------------------------------------------------------------------

/// Every backend without its secrets (for an export that may travel).
pub fn strip_secrets(backends: &mut Vec<BackendConfig>)
    ensures
        final(backends)@.len() == old(backends)@.len(),
        forall|i: int|
            0 <= i < old(backends)@.len() ==> secrets_mapped(
                #[trigger] old(backends)@[i],
                final(backends)@[i],
                |s: Seq<char>| Seq::<char>::empty(),
            ),
{
    let ghost orig = backends@;
    let mut i: usize = 0;
    while i < backends.len()
        invariant
            i <= backends@.len(),
            backends@.len() == orig.len(),
            forall|j: int| i <= j < orig.len() ==> backends@[j] == orig[j],
            forall|j: int|
                0 <= j < i ==> secrets_mapped(
                    #[trigger] orig[j],
                    backends@[j],
                    |s: Seq<char>| Seq::<char>::empty(),
                ),
        decreases orig.len() - i,
    {
        let nb = match &backends[i] {
            BackendConfig::S3 { name, s3 } => BackendConfig::S3 {
                name: name.clone(),
                s3: S3Config {
                    endpoint: s3.endpoint.clone(),
                    region: s3.region.clone(),
                    bucket: s3.bucket.clone(),
                    access_key_id: String::new(),
                    secret_access_key: String::new(),
                    prefix: s3.prefix.clone(),
                    path_style: s3.path_style,
                },
            },
            BackendConfig::Webdav { name, webdav } => BackendConfig::Webdav {
                name: name.clone(),
                webdav: WebDAVConfig {
                    url: webdav.url.clone(),
                    username: webdav.username.clone(),
                    password: String::new(),
                    prefix: webdav.prefix.clone(),
                },
            },
        };
        backends.set(i, nb);
        i = i + 1;
    }
}

/// How an imported configuration is applied.
#[derive(Debug, Clone, Copy, PartialEq, Eq, Structural)]
pub enum ImportMode {
    /// The imported document replaces the current one.
    Replace,
    /// Imported games and backends are merged into the current ones.
    Merge,
}

/// Reads an import mode: `replace` or `merge`.
pub fn parse_import_mode(mode: &str) -> (r: Result<ImportMode, AppError>)
    ensures
        mode@ == "replace"@ ==> r == Ok::<ImportMode, AppError>(ImportMode::Replace),
        mode@ == "merge"@ ==> r == Ok::<ImportMode, AppError>(ImportMode::Merge),
        mode@ != "replace"@ && mode@ != "merge"@ ==> (r matches Err(AppError::Other(m)) && m@
            == "unknown mode: "@ + mode@),
{
    proof {
        reveal_strlit("replace");
        reveal_strlit("merge");
        assert("replace"@[0] != "merge"@[0]);
    }
    if str_eq(mode, "replace") {
        Ok(ImportMode::Replace)
    } else if str_eq(mode, "merge") {
        Ok(ImportMode::Merge)
    } else {
        Err(AppError::Other(concat2("unknown mode: ", mode)))
    }
}

/// Games by id; a later game replaces an earlier one with the same id.
pub open spec fn games_map(gs: Seq<GameProfile>) -> Map<Seq<char>, GameProfile>
    decreases gs.len(),
{
    if gs.len() == 0 {
        Map::empty()
    } else {
        games_map(gs.drop_last()).insert(gs.last().id@, gs.last())
    }
}

/// An incoming backend merged over the current one of the same name: when
/// both are of the same kind, secrets the incoming one lacks (an export
/// without secrets) are taken from the current one.
pub open spec fn merge_backend_spec(cur: Option<BackendConfig>, inc: BackendConfig) -> BackendConfig {
    match cur {
        Some(BackendConfig::S3 { s3: c, .. }) => match inc {
            BackendConfig::S3 { name, s3: x } => BackendConfig::S3 {
                name,
                s3: S3Config {
                    access_key_id: if x.access_key_id@.len() == 0 {
                        c.access_key_id
                    } else {
                        x.access_key_id
                    },
                    secret_access_key: if x.secret_access_key@.len() == 0 {
                        c.secret_access_key
                    } else {
                        x.secret_access_key
                    },
                    ..x
                },
            },
            _ => inc,
        },
        Some(BackendConfig::Webdav { webdav: c, .. }) => match inc {
            BackendConfig::Webdav { name, webdav: x } => BackendConfig::Webdav {
                name,
                webdav: WebDAVConfig {
                    password: if x.password@.len() == 0 {
                        c.password
                    } else {
                        x.password
                    },
                    ..x
                },
            },
            _ => inc,
        },
        None => inc,
    }
}

fn fill_secret(incoming: String, current: &String) -> (r: String)
    ensures
        r == if incoming@.len() == 0 { *current } else { incoming },
{
    if incoming.unicode_len() == 0 {
        current.clone()
    } else {
        incoming
    }
}

/// Merges one incoming backend over the current backend of its name.
pub fn merge_backend(cur: Option<&BackendConfig>, inc: BackendConfig) -> (r: BackendConfig)
    ensures
        r == merge_backend_spec(
            match cur {
                Some(c) => Some(*c),
                None => None,
            },
            inc,
        ),
{
    match cur {
        Some(BackendConfig::S3 { s3: c, .. }) => match inc {
            BackendConfig::S3 { name, s3 } => {
                let ak = fill_secret(s3.access_key_id, &c.access_key_id);
                let sk = fill_secret(s3.secret_access_key, &c.secret_access_key);
                BackendConfig::S3 {
                    name,
                    s3: S3Config {
                        endpoint: s3.endpoint,
                        region: s3.region,
                        bucket: s3.bucket,
                        access_key_id: ak,
                        secret_access_key: sk,
                        prefix: s3.prefix,
                        path_style: s3.path_style,
                    },
                }
            },
            other => other,
        },
        Some(BackendConfig::Webdav { webdav: c, .. }) => match inc {
            BackendConfig::Webdav { name, webdav } => {
                let pw = fill_secret(webdav.password, &c.password);
                BackendConfig::Webdav {
                    name,
                    webdav: WebDAVConfig {
                        url: webdav.url,
                        username: webdav.username,
                        password: pw,
                        prefix: webdav.prefix,
                    },
                }
            },
            other => other,
        },
        None => inc,
    }
}

/// The values of a key map in key order.
fn values_in_order<V>(m: KeyMap<V>) -> (r: Vec<V>)
    ensures
        r@.len() == m.entries@.len(),
        forall|i: int| 0 <= i < r@.len() ==> #[trigger] r@[i] == m.entries@[i].1,
{
    let mut es = m.entries;
    let ghost orig = es@;
    let mut out: Vec<V> = Vec::new();
    while es.len() > 0
        invariant
            out@.len() + es@.len() == orig.len(),
            es@ == orig.subrange(out@.len() as int, orig.len() as int),
            forall|i: int| 0 <= i < out@.len() ==> #[trigger] out@[i] == orig[i].1,
        decreases es@.len(),
    {
        let (_, v) = es.remove(0);
        let ghost k: int = out@.len() as int;
        out.push(v);
        assert(es@ =~= orig.subrange(k + 1, orig.len() as int));
    }
    out
}

/// The merged games: those of the current configuration, then the imported
/// ones, a later game replacing an earlier one with the same id; listed by
/// id.
pub fn merge_games(current: Vec<GameProfile>, incoming: Vec<GameProfile>) -> (r: Vec<GameProfile>)
    ensures
        games_map(r@) == games_map(current@ + incoming@),
        forall|i: int, j: int| 0 <= i < j < r@.len() ==> crate::text::seq_lt(r@[i].id@, r@[j].id@),
{
    let mut m: KeyMap<GameProfile> = KeyMap::new();
    let ghost all = current@ + incoming@;
    let mut cur = current;
    let mut inc = incoming;
    let ghost c0 = cur@;
    let ghost i0 = inc@;
    let cl = cur.len();
    let il = inc.len();
    let mut n: usize = 0;
    // Keys of the map are the ids of the games stored under them.
    while cur.len() > 0
        invariant
            all == c0 + i0,
            cl == c0.len(),
            n + cur@.len() == c0.len(),
            cur@ == c0.subrange(n as int, c0.len() as int),
            m.wf(),
            m.view_map() == games_map(all.subrange(0, n as int)),
            forall|k: Seq<char>| #[trigger] m.view_map().contains_key(k) ==> m.view_map()[k].id@ == k,
        decreases cur@.len(),
    {
        let g = cur.remove(0);
        assert(g == all[n as int]);
        assert(all.subrange(0, n + 1).drop_last() =~= all.subrange(0, n as int));
        let k = g.id.clone();
        m.insert(k, g);
        assert(cur@ =~= c0.subrange(n + 1, c0.len() as int));
        n = n + 1;
    }
    let mut t: usize = 0;
    while inc.len() > 0
        invariant
            all == c0 + i0,
            n == c0.len(),
            il == i0.len(),
            t + inc@.len() == i0.len(),
            inc@ == i0.subrange(t as int, i0.len() as int),
            m.wf(),
            m.view_map() == games_map(all.subrange(0, n + t)),
            forall|k: Seq<char>| #[trigger] m.view_map().contains_key(k) ==> m.view_map()[k].id@ == k,
        decreases inc@.len(),
    {
        let g = inc.remove(0);
        assert(g == all[n + t]);
        assert(all.subrange(0, n + t + 1).drop_last() =~= all.subrange(0, n + t));
        let k = g.id.clone();
        m.insert(k, g);
        assert(inc@ =~= i0.subrange(t + 1, i0.len() as int));
        t = t + 1;
    }
    assert(all.subrange(0, all.len() as int) =~= all);
    let ghost es = m.entries@;
    proof {
        crate::keymap::lemma_entries_map(es);
        assert forall|i: int| 0 <= i < es.len() implies (#[trigger] es[i]).1.id@ == es[i].0@ by {
            crate::keymap::lemma_sorted_lookup(es, i);
        }
    }
    let r = values_in_order(m);
    proof {
        lemma_values_games_map(es, r@);
        assert forall|i: int, j: int| 0 <= i < j < r@.len() implies crate::text::seq_lt(
            r@[i].id@,
            r@[j].id@,
        ) by {
            assert(crate::keymap::keys_of(es)[i] == es[i].0@);
            assert(crate::keymap::keys_of(es)[j] == es[j].0@);
        }
    }
    r
}

proof fn lemma_values_games_map(es: Seq<(String, GameProfile)>, vs: Seq<GameProfile>)
    requires
        vs.len() == es.len(),
        forall|i: int| 0 <= i < vs.len() ==> #[trigger] vs[i] == es[i].1,
        forall|i: int| 0 <= i < es.len() ==> (#[trigger] es[i]).1.id@ == es[i].0@,
    ensures
        games_map(vs) == crate::keymap::entries_map(es),
    decreases es.len(),
{
    if es.len() > 0 {
        let e2 = es.drop_last();
        let v2 = vs.drop_last();
        assert forall|i: int| 0 <= i < v2.len() implies #[trigger] v2[i] == e2[i].1 by {
            assert(v2[i] == vs[i]);
        }
        assert forall|i: int| 0 <= i < e2.len() implies (#[trigger] e2[i]).1.id@ == e2[i].0@ by {
            assert(e2[i] == es[i]);
        }
        lemma_values_games_map(e2, v2);
        assert(vs.last() == es.last().1);
    }
}

/// Backends by name after merging the incoming ones, in order, over the
/// current ones.
pub open spec fn merge_backends_spec(
    m: Map<Seq<char>, BackendConfig>,
    inc: Seq<BackendConfig>,
) -> Map<Seq<char>, BackendConfig>
    decreases inc.len(),
{
    if inc.len() == 0 {
        m
    } else {
        let before = merge_backends_spec(m, inc.drop_last());
        let b = inc.last();
        before.insert(b.spec_name(), merge_backend_spec(get_backend_opt(before, b.spec_name()), b))
    }
}

pub open spec fn get_backend_opt(m: Map<Seq<char>, BackendConfig>, k: Seq<char>) -> Option<BackendConfig> {
    if m.contains_key(k) {
        Some(m[k])
    } else {
        None
    }
}

/// Backends by name; a later backend replaces an earlier one of the same
/// name.
pub open spec fn backends_map(bs: Seq<BackendConfig>) -> Map<Seq<char>, BackendConfig>
    decreases bs.len(),
{
    if bs.len() == 0 {
        Map::empty()
    } else {
        backends_map(bs.drop_last()).insert(bs.last().spec_name(), bs.last())
    }
}

/// The merged backends: the imported ones merged, in order, over the
/// current ones by name; listed by name.
pub fn merge_backends(current: Vec<BackendConfig>, incoming: Vec<BackendConfig>) -> (r: Vec<
    BackendConfig,
>)
    ensures
        backends_map(r@) == merge_backends_spec(backends_map(current@), incoming@),
        forall|i: int, j: int|
            0 <= i < j < r@.len() ==> crate::text::seq_lt(r@[i].spec_name(), r@[j].spec_name()),
{
    let mut m: KeyMap<BackendConfig> = KeyMap::new();
    let mut cur = current;
    let mut inc = incoming;
    let ghost c0 = cur@;
    let ghost i0 = inc@;
    let cl = cur.len();
    let il = inc.len();
    let mut n: usize = 0;
    while cur.len() > 0
        invariant
            cl == c0.len(),
            n + cur@.len() == c0.len(),
            cur@ == c0.subrange(n as int, c0.len() as int),
            m.wf(),
            m.view_map() == backends_map(c0.subrange(0, n as int)),
            forall|k: Seq<char>| #[trigger] m.view_map().contains_key(k) ==> m.view_map()[k].spec_name() == k,
        decreases cur@.len(),
    {
        let b = cur.remove(0);
        assert(b == c0[n as int]);
        assert(c0.subrange(0, n + 1).drop_last() =~= c0.subrange(0, n as int));
        let k = crate::text::owned(b.name());
        m.insert(k, b);
        assert(cur@ =~= c0.subrange(n + 1, c0.len() as int));
        n = n + 1;
    }
    assert(c0.subrange(0, c0.len() as int) =~= c0);
    let mut t: usize = 0;
    assert(i0.subrange(0, 0) =~= Seq::<BackendConfig>::empty());
    while inc.len() > 0
        invariant
            il == i0.len(),
            t + inc@.len() == i0.len(),
            inc@ == i0.subrange(t as int, i0.len() as int),
            m.wf(),
            m.view_map() == merge_backends_spec(backends_map(c0), i0.subrange(0, t as int)),
            forall|k: Seq<char>| #[trigger] m.view_map().contains_key(k) ==> m.view_map()[k].spec_name() == k,
        decreases inc@.len(),
    {
        let b = inc.remove(0);
        assert(b == i0[t as int]);
        assert(i0.subrange(0, t + 1).drop_last() =~= i0.subrange(0, t as int));
        let k = crate::text::owned(b.name());
        let merged = merge_backend(m.get(k.as_str()), b);
        proof {
            assert(merged.spec_name() == b.spec_name());
        }
        m.insert(k, merged);
        assert(inc@ =~= i0.subrange(t + 1, i0.len() as int));
        t = t + 1;
    }
    assert(i0.subrange(0, i0.len() as int) =~= i0);
    let ghost es = m.entries@;
    proof {
        crate::keymap::lemma_entries_map(es);
        assert forall|i: int| 0 <= i < es.len() implies (#[trigger] es[i]).1.spec_name() == es[i].0@ by {
            crate::keymap::lemma_sorted_lookup(es, i);
        }
    }
    let r = values_in_order(m);
    proof {
        lemma_values_backends_map(es, r@);
        assert forall|i: int, j: int| 0 <= i < j < r@.len() implies crate::text::seq_lt(
            r@[i].spec_name(),
            r@[j].spec_name(),
        ) by {
            assert(crate::keymap::keys_of(es)[i] == es[i].0@);
            assert(crate::keymap::keys_of(es)[j] == es[j].0@);
        }
    }
    r
}

proof fn lemma_values_backends_map(es: Seq<(String, BackendConfig)>, vs: Seq<BackendConfig>)
    requires
        vs.len() == es.len(),
        forall|i: int| 0 <= i < vs.len() ==> #[trigger] vs[i] == es[i].1,
        forall|i: int| 0 <= i < es.len() ==> (#[trigger] es[i]).1.spec_name() == es[i].0@,
    ensures
        backends_map(vs) == crate::keymap::entries_map(es),
    decreases es.len(),
{
    if es.len() > 0 {
        let e2 = es.drop_last();
        let v2 = vs.drop_last();
        assert forall|i: int| 0 <= i < v2.len() implies #[trigger] v2[i] == e2[i].1 by {
            assert(v2[i] == vs[i]);
        }
        assert forall|i: int| 0 <= i < e2.len() implies (#[trigger] e2[i]).1.spec_name() == e2[i].0@ by {
            assert(e2[i] == es[i]);
        }
        lemma_values_backends_map(e2, v2);
        assert(vs.last() == es.last().1);
    }
}

/// The configuration after an import: the imported document itself, or
/// the current one with games merged by id (imported ones win) and backends
/// merged by name (imported ones win, keeping current secrets the import
/// lacks); settings stay as they are when merging.
pub fn apply_import(current: ConfigDoc, incoming: ConfigDoc, mode: ImportMode) -> (r: ConfigDoc)
    ensures
        mode == ImportMode::Replace ==> r == incoming,
        mode == ImportMode::Merge ==> {
            &&& games_map(r.games@) == games_map(current.games@ + incoming.games@)
            &&& backends_map(r.backends@) == merge_backends_spec(
                backends_map(current.backends@),
                incoming.backends@,
            )
            &&& r.settings == current.settings
        },
{
    match mode {
        ImportMode::Replace => incoming,
        ImportMode::Merge => {
            let games = merge_games(current.games, incoming.games);
            let backends = merge_backends(current.backends, incoming.backends);
            ConfigDoc { games, backends, settings: current.settings }
        },
    }
}

/// Sync needs at least one backend.
pub fn require_backends(doc: &ConfigDoc) -> (r: Result<(), AppError>)
    ensures
        r is Ok <==> doc.backends@.len() > 0,
        r is Err ==> (r matches Err(AppError::Config(m)) && m@ == "尚未配置任何云存储后端"@),
{
    if doc.backends.len() == 0 {
        Err(AppError::Config(owned("尚未配置任何云存储后端")))
    } else {
        Ok(())
    }
}

/// Merging an import never loses a WebDAV password the current
/// configuration has and the imported backend of that name lacks.
pub proof fn law_merge_keeps_missing_password(
    cur_name: String,
    c: WebDAVConfig,
    name: String,
    x: WebDAVConfig,
)
    requires
        x.password@.len() == 0,
    ensures
        merge_backend_spec(
            Some((BackendConfig::Webdav { name: cur_name, webdav: c })),
            (BackendConfig::Webdav { name, webdav: x }),
        ) == (BackendConfig::Webdav { name, webdav: (WebDAVConfig { password: c.password, ..x }) }),
{
}

/// Merging an import never loses S3 keys the current configuration has and
/// the imported backend of that name lacks; keys it does carry win.
pub proof fn law_merge_keeps_missing_keys(cur_name: String, c: S3Config, name: String, x: S3Config)
    ensures
        (merge_backend_spec(
            Some((BackendConfig::S3 { name: cur_name, s3: c })),
            (BackendConfig::S3 { name, s3: x }),
        ) matches BackendConfig::S3 { s3: y, .. } && y.access_key_id@ == (if x.access_key_id@.len()
            == 0 {
            c.access_key_id@
        } else {
            x.access_key_id@
        }) && y.secret_access_key@ == (if x.secret_access_key@.len() == 0 {
            c.secret_access_key@
        } else {
            x.secret_access_key@
        })),
{
}

/// An imported backend wins over the current one of its name: its
/// non-empty secrets are kept as imported, and so is everything else it
/// holds; only an empty secret is filled from the current backend of the
/// same kind.
pub proof fn law_import_secrets_win(cur: Option<BackendConfig>, inc: BackendConfig)
    ensures
        inc matches BackendConfig::Webdav { name, webdav: x } ==> merge_backend_spec(cur, inc) matches BackendConfig::Webdav { name: n2, webdav: y }
            && n2 == name && y.url == x.url && y.username == x.username && y.prefix == x.prefix && (
        x.password@.len() > 0 ==> y.password == x.password),
        inc matches BackendConfig::S3 { name, s3: x } ==> merge_backend_spec(cur, inc) matches BackendConfig::S3 { name: n2, s3: y }
            && n2 == name && y.endpoint == x.endpoint && y.region == x.region && y.bucket == x.bucket
            && y.prefix == x.prefix && y.path_style == x.path_style && (x.access_key_id@.len() > 0
            ==> y.access_key_id == x.access_key_id) && (x.secret_access_key@.len() > 0
            ==> y.secret_access_key == x.secret_access_key),
{
}

/// After a merge import, the backend of a name last imported as WebDAV
/// with a password carries that password.
pub proof fn law_merged_import_password(m: Map<Seq<char>, BackendConfig>, inc: Seq<BackendConfig>, i: int)
    requires
        0 <= i < inc.len(),
        inc[i] is Webdav,
        inc[i]->webdav.password@.len() > 0,
        forall|j: int| i < j < inc.len() ==> (#[trigger] inc[j]).spec_name() != inc[i].spec_name(),
    ensures
        merge_backends_spec(m, inc).contains_key(inc[i].spec_name()),
        merge_backends_spec(m, inc)[inc[i].spec_name()] matches BackendConfig::Webdav { webdav: y, .. }
            && y.password == inc[i]->webdav.password,
    decreases inc.len(),
{
    let d = inc.drop_last();
    if i < inc.len() - 1 {
        assert forall|j: int| i < j < d.len() implies (#[trigger] d[j]).spec_name() != d[i].spec_name() by {
            assert(d[j] == inc[j]);
        }
        assert(d[i] == inc[i]);
        law_merged_import_password(m, d, i);
        assert(inc.last() == inc[inc.len() - 1]);
    } else {
        let before = merge_backends_spec(m, d);
        law_import_secrets_win(get_backend_opt(before, inc[i].spec_name()), inc[i]);
    }
}

} // verus!
