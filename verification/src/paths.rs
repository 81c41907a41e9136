//! Save-path expansion, the data directory, and remote key layout.

use crate::error::AppError;
use crate::text::{
    char_pred, chars_of, concat3, contains_str, map_char, owned, replace_all, replace_all_spec,
    replace_char, seq_contains_sub, seq_starts_with, starts_with, str_eq, trim, trim_end_by,
    trim_end_char, trim_spec, trim_start_by, trim_start_char, lead_count, trail_count,
};
use vstd::prelude::*;
use vstd::utf8::{decode_utf8, encode_utf8, valid_utf8};

verus! {

broadcast use vstd::string::group_string_axioms;

/// A local path: `root` joined with each of `parts` in turn (with the
/// platform's `Path::join`).
#[derive(Debug, Clone)]
pub struct LocalPath {
    pub root: String,
    pub parts: Vec<String>,
}

// ---------------------------------------------------------------------------
// Case-insensitive replacement
// ---------------------------------------------------------------------------

pub open spec fn ascii_lower(b: u8) -> u8 {
    if 65 <= b <= 90 {
        (b + 32) as u8
    } else {
        b
    }
}

/// `<[u8]>::eq_ignore_ascii_case`.
pub open spec fn eq_ignore_ascii_case(a: Seq<u8>, b: Seq<u8>) -> bool {
    a.len() == b.len() && forall|i: int| 0 <= i < a.len() ==> ascii_lower(a[i]) == ascii_lower(b[i])
}

/// Left-to-right replacement of every ASCII-case-insensitive occurrence of a
/// non-empty byte pattern.
pub open spec fn ci_replace_bytes(h: Seq<u8>, n: Seq<u8>, r: Seq<u8>) -> Seq<u8>
    decreases h.len(),
{
    if n.len() == 0 || h.len() == 0 {
        h
    } else if n.len() <= h.len() && eq_ignore_ascii_case(h.subrange(0, n.len() as int), n) {
        r + ci_replace_bytes(h.subrange(n.len() as int, h.len() as int), n, r)
    } else {
        seq![h[0]] + ci_replace_bytes(h.drop_first(), n, r)
    }
}

/// The text `String::from_utf8_lossy` makes of bytes that are not UTF-8.
pub uninterp spec fn utf8_lossy_text(bytes: Seq<u8>) -> Seq<char>;

/// `String::from_utf8_lossy(..).into_owned()`: valid UTF-8 is decoded
/// as is (std documents this); the replacement text for invalid input is
/// named, not spelled out.
#[verifier::external_body]
pub(crate) fn string_from_utf8_lossy(bytes: &[u8]) -> (s: String)
    ensures
        valid_utf8(bytes@) ==> s@ == decode_utf8(bytes@),
        !valid_utf8(bytes@) ==> s@ == utf8_lossy_text(bytes@),
{
    String::from_utf8_lossy(bytes).into_owned()
}

/// Result of `case_insensitive_replace`.
pub open spec fn ci_replace_spec(h: Seq<char>, n: Seq<char>, r: Seq<char>) -> Seq<char> {
    let hb = encode_utf8(h);
    let nb = encode_utf8(n);
    if nb.len() == 0 || nb.len() > hb.len() {
        h
    } else {
        let out = ci_replace_bytes(hb, nb, encode_utf8(r));
        if valid_utf8(out) {
            decode_utf8(out)
        } else {
            utf8_lossy_text(out)
        }
    }
}

fn ci_match_at(h: &[u8], n: &[u8], i: usize) -> (b: bool)
    requires
        n@.len() > 0,
        i < h@.len(),
    ensures
        b == (n@.len() <= h@.len() - i && eq_ignore_ascii_case(
            h@.subrange(i as int, i + n@.len()),
            n@,
        )),
{
    if n.len() > h.len() - i {
        return false;
    }
    let mut j: usize = 0;
    while j < n.len()
        invariant
            i + n@.len() <= h@.len(),
            h@.len() == h.len(),
            j <= n@.len(),
            forall|k: int| 0 <= k < j ==> ascii_lower(h@[i + k]) == ascii_lower(n@[k]),
        decreases n@.len() - j,
    {
        let a = h[i + j];
        let b = n[j];
        let la = if 65 <= a && a <= 90 { a + 32 } else { a };
        let lb = if 65 <= b && b <= 90 { b + 32 } else { b };
        if la != lb {
            assert(h@.subrange(i as int, i + n@.len())[j as int] == a);
            return false;
        }
        j = j + 1;
    }
    assert forall|k: int| 0 <= k < n@.len() implies ascii_lower(
        h@.subrange(i as int, i + n@.len())[k],
    ) == ascii_lower(n@[k]) by {
        assert(h@.subrange(i as int, i + n@.len())[k] == h@[i + k]);
    }
    true
}

/// Replaces every ASCII-case-insensitive occurrence of `needle` by
/// `replacement`, comparing UTF-8 bytes so that non-ASCII text around the
/// (ASCII) token is left intact.
pub fn case_insensitive_replace(haystack: &str, needle: &str, replacement: &str) -> (r: String)
    ensures
        r@ == ci_replace_spec(haystack@, needle@, replacement@),
{
    let h = haystack.as_bytes();
    let n = needle.as_bytes();
    let rb = replacement.as_bytes();
    if n.len() == 0 || n.len() > h.len() {
        return owned(haystack);
    }
    let mut result: Vec<u8> = Vec::new();
    let mut i: usize = 0;
    assert(h@.subrange(0, h@.len() as int) =~= h@);
    while i < h.len()
        invariant
            n@.len() > 0,
            i <= h@.len(),
            result@ + ci_replace_bytes(h@.subrange(i as int, h@.len() as int), n@, rb@)
                == ci_replace_bytes(h@, n@, rb@),
        decreases h@.len() - i,
    {
        let ghost rest = h@.subrange(i as int, h@.len() as int);
        if ci_match_at(h, n, i) {
            assert(rest.subrange(0, n@.len() as int) =~= h@.subrange(i as int, i + n@.len()));
            assert(rest.subrange(n@.len() as int, rest.len() as int) =~= h@.subrange(
                i + n@.len(),
                h@.len() as int,
            ));
            let mut k: usize = 0;
            let ghost before = result@;
            while k < rb.len()
                invariant
                    k <= rb@.len(),
                    result@ == before + rb@.subrange(0, k as int),
                decreases rb@.len() - k,
            {
                result.push(rb[k]);
                assert(result@ =~= before + rb@.subrange(0, k + 1));
                k = k + 1;
            }
            assert(rb@.subrange(0, rb@.len() as int) =~= rb@);
            assert(result@ + ci_replace_bytes(h@.subrange(i + n@.len(), h@.len() as int), n@, rb@)
                =~= ci_replace_bytes(h@, n@, rb@));
            i = i + n.len();
        } else {
            proof {
                if n@.len() <= rest.len() {
                    assert(rest.subrange(0, n@.len() as int) =~= h@.subrange(
                        i as int,
                        i + n@.len(),
                    ));
                }
            }
            assert(rest.drop_first() =~= h@.subrange(i + 1, h@.len() as int));
            let ghost before = result@;
            result.push(h[i]);
            assert(result@ + ci_replace_bytes(h@.subrange(i + 1, h@.len() as int), n@, rb@)
                =~= ci_replace_bytes(h@, n@, rb@));
            i = i + 1;
        }
    }
    assert(result@ =~= ci_replace_bytes(h@, n@, rb@));
    string_from_utf8_lossy(result.as_slice())
}

/// When the needle never matches, bytes pass through unchanged.
proof fn lemma_ci_no_match(h: Seq<u8>, n: Seq<u8>, r: Seq<u8>)
    requires
        n.len() > 0,
        forall|i: int|
            0 <= i && i + n.len() <= h.len() ==> !eq_ignore_ascii_case(
                #[trigger] h.subrange(i, i + n.len()),
                n,
            ),
    ensures
        ci_replace_bytes(h, n, r) == h,
    decreases h.len(),
{
    if h.len() > 0 {
        let t = h.drop_first();
        assert forall|i: int| 0 <= i && i + n.len() <= t.len() implies !eq_ignore_ascii_case(
            #[trigger] t.subrange(i, i + n.len()),
            n,
        ) by {
            assert(t.subrange(i, i + n.len()) =~= h.subrange(i + 1, i + 1 + n.len()));
        }
        lemma_ci_no_match(t, n, r);
        if n.len() <= h.len() {
            let z: int = 0;
            assert(!eq_ignore_ascii_case(h.subrange(z, z + n.len()), n));
            assert(h.subrange(z, z + n.len()) == h.subrange(0, n.len() as int));
        }
        assert(seq![h[0]] + t =~= h);
    }
}

/// Text without any (ASCII-case-insensitive) occurrence of the token comes
/// back unchanged, whatever characters it holds.
pub proof fn law_replace_without_match_is_identity(h: Seq<char>, n: Seq<char>, r: Seq<char>)
    requires
        forall|i: int|
            0 <= i && i + encode_utf8(n).len() <= encode_utf8(h).len() ==> !eq_ignore_ascii_case(
                #[trigger] encode_utf8(h).subrange(i, i + encode_utf8(n).len()),
                encode_utf8(n),
            ),
    ensures
        ci_replace_spec(h, n, r) == h,
{
    let hb = encode_utf8(h);
    let nb = encode_utf8(n);
    if nb.len() > 0 && nb.len() <= hb.len() {
        lemma_ci_no_match(hb, nb, encode_utf8(r));
        vstd::utf8::encode_utf8_valid_utf8(h);
        vstd::utf8::encode_utf8_decode_utf8(h);
    }
}

// ---------------------------------------------------------------------------
// Remote keys
// ---------------------------------------------------------------------------

/// `"/"`-separated remote key for a relative path under a prefix:
/// backslashes become slashes, leading slashes of the path and trailing
/// slashes of the prefix are dropped, and an empty prefix adds nothing.
pub open spec fn remote_key_spec(prefix: Seq<char>, rel: Seq<char>) -> Seq<char> {
    let r = trim_start_by(map_char(rel, '\\', '/'), char_pred('/'));
    let p = trim_end_by(prefix, char_pred('/'));
    if p.len() == 0 {
        r
    } else {
        p + "/"@ + r
    }
}

/// Normalises a relative path into a remote key under `prefix`.
pub fn to_remote_key(prefix: &str, rel: &str) -> (k: String)
    ensures
        k@ == remote_key_spec(prefix@, rel@),
{
    let r1 = replace_char(rel, '\\', '/');
    let r2 = trim_start_char(r1.as_str(), '/');
    let p = trim_end_char(prefix, '/');
    if p.unicode_len() == 0 {
        r2
    } else {
        concat3(p.as_str(), "/", r2.as_str())
    }
}

/// A remote key does not depend on how the parts were written: a trailing
/// `/` on the prefix, a leading `/` on the path, or backslashes in place of
/// slashes give the same key, and after the prefix the key holds no
/// backslash.
pub proof fn law_remote_key_normal_form(prefix: Seq<char>, rel: Seq<char>)
    ensures
        remote_key_spec(prefix + "/"@, rel) == remote_key_spec(prefix, rel),
        remote_key_spec(prefix, "/"@ + rel) == remote_key_spec(prefix, rel),
        remote_key_spec(prefix, map_char(rel, '/', '\\')) == remote_key_spec(prefix, rel),
        forall|i: int|
            trim_end_by(prefix, char_pred('/')).len() <= i < remote_key_spec(prefix, rel).len()
                ==> #[trigger] remote_key_spec(prefix, rel)[i] != '\\',
{
    reveal_strlit("/");
    let f = char_pred('/');
    // A trailing slash on the prefix is trimmed with the others.
    let ps = prefix + "/"@;
    assert(ps.last() == '/');
    assert(ps.drop_last() =~= prefix);
    assert(trail_count(ps, f) == 1 + trail_count(prefix, f));
    crate::text::lemma_trail_count(prefix, f);
    assert(trim_end_by(ps, f) =~= trim_end_by(prefix, f));
    // A leading slash on the path is trimmed with the others.
    let m = map_char(rel, '\\', '/');
    let rs = "/"@ + rel;
    assert(map_char(rs, '\\', '/') =~= seq!['/'] + m);
    let ms = seq!['/'] + m;
    assert(ms[0] == '/');
    assert(ms.drop_first() =~= m);
    assert(lead_count(ms, f) == 1 + lead_count(m, f));
    crate::text::lemma_lead_count(m, f);
    assert(trim_start_by(ms, f) =~= trim_start_by(m, f));
    // Slashes written as backslashes read the same.
    assert(map_char(map_char(rel, '/', '\\'), '\\', '/') =~= m);
    // No backslash survives in the path part.
    let t = trim_start_by(m, f);
    assert forall|j: int| 0 <= j < t.len() implies t[j] != '\\' by {
        assert(t[j] == m[j + lead_count(m, f)]);
    }
    let k = remote_key_spec(prefix, rel);
    let tp = trim_end_by(prefix, f);
    assert forall|i: int| tp.len() <= i < k.len() implies #[trigger] k[i] != '\\' by {
        if tp.len() == 0 {
            assert(k == t);
        } else {
            assert(k == tp + "/"@ + t);
            if i > tp.len() {
                assert(k[i] == t[i - tp.len() - 1]);
            }
        }
    }
}

// ---------------------------------------------------------------------------
// Expansion
// ---------------------------------------------------------------------------

/// The user directories expansion may substitute, as found on this machine.
#[derive(Debug, Clone)]
pub struct KnownDirs {
    pub home: Option<String>,
    pub config: Option<String>,
    pub data_local: Option<String>,
    pub documents: Option<String>,
}

/// The directories of this machine: each kind read by its own call and
/// put in its own place (see `crate::userdirs`).
pub fn known_dirs() -> KnownDirs {
    crate::userdirs::dirs_of(
        crate::userdirs::home_dir(),
        crate::userdirs::config_dir(),
        crate::userdirs::data_local_dir(),
        crate::userdirs::document_dir(),
    )
}

/// One Windows-style token replaced by a directory, when known.
pub open spec fn subst(s: Seq<char>, token: Seq<char>, dir: Option<String>) -> Seq<char> {
    match dir {
        Some(d) => ci_replace_spec(s, token, d@),
        None => s,
    }
}

/// Substitution of the Windows-style tokens, in order.
pub open spec fn subst_all(s: Seq<char>, d: KnownDirs) -> Seq<char> {
    let s1 = subst(s, "%USERPROFILE%"@, d.home);
    let s2 = subst(s1, "%APPDATA%"@, d.config);
    let s3 = subst(s2, "%LOCALAPPDATA%"@, d.data_local);
    let s4 = subst(s3, "%HOME%"@, d.home);
    subst(s4, "%DOCUMENTS%"@, d.documents)
}

/// `$HOME` replaced by the home directory, when the text has a `$` and the
/// home directory is known.
pub open spec fn posix_subst(s: Seq<char>, home: Option<String>) -> Seq<char> {
    if s.contains('$') && home is Some {
        replace_all_spec(s, "$HOME"@, home->0@)
    } else {
        s
    }
}

/// `p` is `root` joined with `parts`.
pub open spec fn path_is(p: LocalPath, root: Seq<char>, parts: Seq<Seq<char>>) -> bool {
    &&& p.root@ == root
    &&& p.parts@.len() == parts.len()
    &&& forall|i: int| 0 <= i < parts.len() ==> #[trigger] p.parts@[i]@ == parts[i]
}

/// A path result agrees with a spec outcome: the same path, or a path
/// error with the same text.
pub open spec fn path_outcome(
    r: Result<LocalPath, AppError>,
    o: Result<(Seq<char>, Seq<Seq<char>>), Seq<char>>,
) -> bool {
    match o {
        Ok((root, parts)) => r matches Ok(p) && path_is(p, root, parts),
        Err(m) => r matches Err(AppError::Path(e)) && e@ == m,
    }
}

/// Outcome of expanding a save path: the root and the parts joined onto it,
/// or the text of the path error.
pub open spec fn expand_spec(input: Seq<char>, d: KnownDirs) -> Result<
    (Seq<char>, Seq<Seq<char>>),
    Seq<char>,
> {
    let s = trim_spec(input);
    if s.len() == 0 {
        Err("empty path"@)
    } else if s == "~"@ || seq_starts_with(s, "~/"@) || seq_starts_with(s, "~\\"@) {
        match d.home {
            None => Err("no home dir"@),
            Some(h) => Ok((h@, seq![s.subrange(if s.len() > 1 { 2 } else { 1 }, s.len() as int)])),
        }
    } else {
        Ok((posix_subst(subst_all(s, d), d.home), Seq::empty()))
    }
}

fn subst_exec(s: String, token: &str, dir: &Option<String>) -> (r: String)
    ensures
        r@ == subst(s@, token@, *dir),
{
    match dir {
        Some(d) => case_insensitive_replace(s.as_str(), token, d.as_str()),
        None => s,
    }
}

/// Expands `~`, `%USERPROFILE%`, `%APPDATA%`, `%LOCALAPPDATA%`, `%HOME%`,
/// `%DOCUMENTS%` and `$HOME` in a save path, given the machine's
/// directories.  A path starting with `~` becomes the home directory joined
/// with the rest; anything else is the substituted text.
pub fn expand_with(input: &str, d: &KnownDirs) -> (r: Result<LocalPath, AppError>)
    ensures
        path_outcome(r, expand_spec(input@, *d)),
{
    proof {
        reveal_strlit("~");
        reveal_strlit("~/");
        reveal_strlit("~\\");
    }
    let s = trim(input);
    let x = chars_of(s.as_str());
    if x.len() == 0 {
        return Err(AppError::Path(owned("empty path")));
    }
    if str_eq(s.as_str(), "~") || starts_with(s.as_str(), "~/") || starts_with(s.as_str(), "~\\") {
        return match &d.home {
            None => Err(AppError::Path(owned("no home dir"))),
            Some(h) => {
                let from: usize = if x.len() > 1 { 2 } else { 1 };
                let rest = crate::text::substring(&x, from, x.len());
                let mut parts: Vec<String> = Vec::new();
                parts.push(rest);
                Ok(LocalPath { root: h.clone(), parts })
            },
        };
    }
    let s1 = subst_exec(s, "%USERPROFILE%", &d.home);
    let s2 = subst_exec(s1, "%APPDATA%", &d.config);
    let s3 = subst_exec(s2, "%LOCALAPPDATA%", &d.data_local);
    let s4 = subst_exec(s3, "%HOME%", &d.home);
    let s5 = subst_exec(s4, "%DOCUMENTS%", &d.documents);
    let out = if contains_str(s5.as_str(), "$") && d.home.is_some() {
        proof {
            reveal_strlit("$");
            reveal_strlit("$HOME");
            assert(seq_contains_sub(s5@, "$"@) == s5@.contains('$')) by {
                if s5@.contains('$') {
                    let w = s5@.index_of('$');
                    assert(s5@.subrange(w, w + 1) =~= "$"@);
                }
                if seq_contains_sub(s5@, "$"@) {
                    let w = choose|w: int| crate::text::occurs_at(s5@, "$"@, w);
                    assert(s5@.subrange(w, w + 1)[0] == s5@[w]);
                }
            }
        }
        match &d.home {
            Some(h) => replace_all(s5.as_str(), "$HOME", h.as_str()),
            None => s5,
        }
    } else {
        proof {
            reveal_strlit("$");
            if s5@.contains('$') {
                let w = s5@.index_of('$');
                assert(s5@.subrange(w, w + 1) =~= "$"@);
                assert(crate::text::occurs_at(s5@, "$"@, w));
            }
        }
        s5
    };
    Ok(LocalPath { root: out, parts: Vec::new() })
}

/// Expands a save path with the directories of this machine: the outcome
/// is that of `expand_with` for the directories found here.
pub fn expand(input: &str) -> (r: Result<LocalPath, AppError>)
    ensures
        exists|d: KnownDirs| path_outcome(r, #[trigger] expand_spec(input@, d)),
{
    let d = known_dirs();
    let r = expand_with(input, &d);
    r
}

/// The application's data directory: `GSyncing` under the local data
/// directory, or under the roaming data directory where there is no local one.
pub open spec fn data_dir_spec(local: Option<String>, roaming: Option<String>) -> Result<
    (Seq<char>, Seq<Seq<char>>),
    Seq<char>,
> {
    match local {
        Some(b) => Ok((b@, seq!["GSyncing"@])),
        None => match roaming {
            Some(b) => Ok((b@, seq!["GSyncing"@])),
            None => Err("no data dir"@),
        },
    }
}

/// The data directory under a chosen base, or the path error when neither
/// base is known.
pub fn data_dir_from(local: Option<String>, roaming: Option<String>) -> (r: Result<
    LocalPath,
    AppError,
>)
    ensures
        path_outcome(r, data_dir_spec(local, roaming)),
{
    let base = match local {
        Some(b) => b,
        None => match roaming {
            Some(b) => b,
            None => {
                return Err(AppError::Path(owned("no data dir")));
            },
        },
    };
    let mut parts: Vec<String> = Vec::new();
    parts.push(owned("GSyncing"));
    Ok(LocalPath { root: base, parts })
}

/// Resolves the data directory on this machine.
pub fn data_dir() -> (r: Result<LocalPath, AppError>)
    ensures
        exists|local: Option<String>, roaming: Option<String>|
            path_outcome(r, #[trigger] data_dir_spec(local, roaming)),
        r matches Ok(p) ==> p.parts@.len() == 1 && p.parts@[0]@ == "GSyncing"@,
        r is Err ==> (r matches Err(AppError::Path(e)) && e@ == "no data dir"@),
{
    crate::userdirs::data_dir_in(crate::userdirs::data_local_dir(), crate::userdirs::data_dir_base())
}

/// A file directly under the data directory.
fn data_file(name: &str) -> (r: Result<LocalPath, AppError>)
    ensures
        r matches Ok(p) ==> p.parts@.len() == 2 && p.parts@[0]@ == "GSyncing"@ && p.parts@[1]@
            == name@,
        r is Err ==> (r matches Err(AppError::Path(e)) && e@ == "no data dir"@),
{
    match data_dir() {
        Ok(p) => {
            let mut parts = p.parts;
            parts.push(owned(name));
            Ok(LocalPath { root: p.root, parts })
        },
        Err(e) => Err(e),
    }
}

/// `config.json` in the data directory.
pub fn config_file() -> (r: Result<LocalPath, AppError>)
    ensures
        r matches Ok(p) ==> p.parts@.len() == 2 && p.parts@[0]@ == "GSyncing"@ && p.parts@[1]@
            == "config.json"@,
        r is Err ==> (r matches Err(AppError::Path(e)) && e@ == "no data dir"@),
{
    data_file("config.json")
}

/// `gsyncing.log` in the data directory.
pub fn log_file() -> (r: Result<LocalPath, AppError>)
    ensures
        r matches Ok(p) ==> p.parts@.len() == 2 && p.parts@[0]@ == "GSyncing"@ && p.parts@[1]@
            == "gsyncing.log"@,
        r is Err ==> (r matches Err(AppError::Path(e)) && e@ == "no data dir"@),
{
    data_file("gsyncing.log")
}

/// The index recorded after a game's last sync, kept locally as
/// `snapshots/<game id>.json` in the data directory.
pub fn prior_index_file(game_id: &str) -> (r: Result<LocalPath, AppError>)
    ensures
        r matches Ok(p) ==> p.parts@.len() == 3 && p.parts@[0]@ == "GSyncing"@ && p.parts@[1]@
            == "snapshots"@ && p.parts@[2]@ == game_id@ + ".json"@,
        r is Err ==> (r matches Err(AppError::Path(e)) && e@ == "no data dir"@),
{
    match data_dir() {
        Ok(p) => {
            let mut parts = p.parts;
            parts.push(owned("snapshots"));
            parts.push(crate::text::concat2(game_id, ".json"));
            Ok(LocalPath { root: p.root, parts })
        },
        Err(e) => Err(e),
    }
}

/// `stats.jsonl` in the data directory.
pub fn stats_file() -> (r: Result<LocalPath, AppError>)
    ensures
        r matches Ok(p) ==> p.parts@.len() == 2 && p.parts@[0]@ == "GSyncing"@ && p.parts@[1]@
            == "stats.jsonl"@,
        r is Err ==> (r matches Err(AppError::Path(e)) && e@ == "no data dir"@),
{
    data_file("stats.jsonl")
}

} // verus!
