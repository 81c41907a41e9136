//! The decisions of a local scan: which save-path roots to walk, which
//! files the game's globs select, when a file's previous
//! hash can be reused, and the order of the result.  Walking the disk and
//! reading file contents happen outside the library.

use crate::engine::{LocalFile, RemoteIndex, RemoteIndexEntry};
use crate::error::AppError;
use crate::keymap::KeyMap;
use crate::model::GameProfile;
use crate::paths::{expand_spec, expand_with, path_outcome, KnownDirs, LocalPath};
use crate::text::{concat2, concat3, owned, seq_lt, str_less, trim, trim_spec};
use vstd::prelude::*;

verus! {

broadcast use vstd::string::group_string_axioms;

// ---------------------------------------------------------------------------
// globset
// ---------------------------------------------------------------------------

/// `globset::Glob`, a parsed glob pattern.
#[verifier::external_type_specification]
#[verifier::external_body]
pub struct ExGlob(globset::Glob);

/// `globset::GlobSetBuilder`, a list of globs to be compiled together.
#[verifier::external_type_specification]
#[verifier::external_body]
pub struct ExGlobSetBuilder(globset::GlobSetBuilder);

/// `globset::GlobSet`, compiled globs matched together.
#[verifier::external_type_specification]
#[verifier::external_body]
pub struct ExGlobSet(globset::GlobSet);

/// The pattern text a `Glob` was parsed from (what `Glob::glob` returns),
/// and whether a backslash in it was read as a path separator (rather than
/// as an escape).
pub uninterp spec fn glob_source(g: globset::Glob) -> (Seq<char>, bool);

/// The globs added to a builder, in order, as `glob_source` gives them.
pub uninterp spec fn builder_globs(b: globset::GlobSetBuilder) -> Seq<(Seq<char>, bool)>;

/// The globs a glob set was built from, in order.
pub uninterp spec fn set_globs(s: globset::GlobSet) -> Seq<(Seq<char>, bool)>;

/// The text of the error that parsing a pattern reports, or `None` when the
/// pattern parses, under a platform's backslash rule (`backslash_sep`):
/// where a backslash is a separator it reads as `/`, elsewhere it escapes
/// the next character.
pub uninterp spec fn glob_new_error(pattern: Seq<char>, backslash_sep: bool) -> Option<Seq<char>>;

/// Whether a glob pattern, parsed under the given backslash rule with the
/// other options at their defaults, matches a path holding no backslash.
pub uninterp spec fn glob_matches(pattern: Seq<char>, backslash_sep: bool, path: Seq<char>) -> bool;

/// The text of the error that compiling these globs into one set reports
/// (it fails only on internal size limits), or `None` when it succeeds.
pub uninterp spec fn glob_build_error(globs: Seq<(Seq<char>, bool)>) -> Option<Seq<char>>;

/// Whether any of the globs matches the path.
pub open spec fn any_matches(globs: Seq<(Seq<char>, bool)>, path: Seq<char>) -> bool {
    exists|i: int| 0 <= i < globs.len() && glob_matches(#[trigger] globs[i].0, globs[i].1, path)
}

/// How this platform reads a backslash in a path: as a separator (Windows)
/// or as an ordinary character that a glob pattern uses as an escape.  Only
/// `separator_rule` makes one, so every rule a program holds is its
/// platform's.
#[derive(Debug, Clone, Copy)]
pub struct SeparatorRule {
    backslash_sep: bool,
}

impl SeparatorRule {
    /// Whether a backslash is a path separator.
    pub closed spec fn backslash_separates(self) -> bool {
        self.backslash_sep
    }
}

/// `std::path::is_separator('\\')`: the platform's rule.  It depends on
/// the platform, so nothing is claimed of it.
#[verifier::external_body]
fn separator_rule() -> SeparatorRule {
    SeparatorRule { backslash_sep: std::path::is_separator('\\') }
}

/// `globset::GlobBuilder::build` with `backslash_escape` set as `Glob::new`
/// sets it on this platform (off where a backslash is a separator) and every
/// other option at its default.  On success the glob remembers its pattern
/// text and rule; on failure the error's display text is returned.  The
/// parser reads a backslash, and `**` next to one, by the platform's rule,
/// so both results depend on the pattern and the rule alone.
#[verifier::external_body]
fn glob_new(pattern: &str, rule: SeparatorRule) -> (r: Result<globset::Glob, String>)
    ensures
        match r {
            Ok(g) => glob_new_error(pattern@, rule.backslash_separates()) is None && glob_source(g)
                == (pattern@, rule.backslash_separates()),
            Err(m) => glob_new_error(pattern@, rule.backslash_separates()) == Some(m@),
        },
{
    match globset::GlobBuilder::new(pattern).backslash_escape(!rule.backslash_sep).build() {
        Ok(g) => Ok(g),
        Err(e) => Err(format!("{e}")),
    }
}

/// `globset::GlobSetBuilder::new`: a builder with no globs.
#[verifier::external_body]
fn builder_new() -> (b: globset::GlobSetBuilder)
    ensures
        builder_globs(b) == Seq::<(Seq<char>, bool)>::empty(),
{
    globset::GlobSetBuilder::new()
}

/// `globset::GlobSetBuilder::add`: appends a glob.
#[verifier::external_body]
fn builder_add(b: &mut globset::GlobSetBuilder, g: globset::Glob)
    ensures
        builder_globs(*final(b)) == builder_globs(*old(b)).push(glob_source(g)),
{
    b.add(g);
}

/// `globset::GlobSetBuilder::build`: compiles the globs added so far.  A
/// set it returns holds exactly those globs; compilation fails only on
/// internal size limits, which depend on the globs alone, and then the
/// error's display text is returned.
#[verifier::external_body]
fn builder_build(b: &globset::GlobSetBuilder) -> (r: Result<globset::GlobSet, String>)
    ensures
        match r {
            Ok(s) => glob_build_error(builder_globs(*b)) is None && set_globs(s) == builder_globs(
                *b,
            ),
            Err(m) => glob_build_error(builder_globs(*b)) == Some(m@),
        },
{
    match b.build() {
        Ok(s) => Ok(s),
        Err(e) => Err(format!("{e}")),
    }
}

/// Whether the text holds no backslash.
pub open spec fn no_backslash(path: Seq<char>) -> bool {
    forall|i: int| 0 <= i < path.len() ==> path[i] != '\\'
}

/// `globset::GlobSet::is_match`: whether any glob of the set matches the
/// path (its documentation: "Returns true if any glob in this set matches
/// the path given").  A path without backslashes is matched as it is on
/// every platform.
#[verifier::external_body]
fn set_is_match(s: &globset::GlobSet, path: &str) -> (r: bool)
    requires
        no_backslash(path@),
    ensures
        r == (exists|i: int|
            0 <= i < set_globs(*s).len() && glob_matches(
                #[trigger] set_globs(*s)[i].0,
                set_globs(*s)[i].1,
                path@,
            )),
{
    s.is_match(path)
}

/// `globset::GlobSet::is_empty`: whether the set holds no glob.
#[verifier::external_body]
fn set_is_empty(s: &globset::GlobSet) -> (r: bool)
    ensures
        r == (set_globs(*s).len() == 0),
{
    s.is_empty()
}

/// The texts of a list of strings.
pub open spec fn texts(ps: Seq<String>) -> Seq<Seq<char>> {
    ps.map_values(|s: String| s@)
}

/// The patterns in effect: the given ones, or the defaults when none is
/// given.
pub open spec fn effective_patterns(patterns: Seq<Seq<char>>, default: Seq<Seq<char>>) -> Seq<
    Seq<char>,
> {
    if patterns.len() == 0 {
        default
    } else {
        patterns
    }
}

/// The patterns that are not blank, in order.
pub open spec fn nonblank(ps: Seq<Seq<char>>) -> Seq<Seq<char>>
    decreases ps.len(),
{
    if ps.len() == 0 {
        Seq::empty()
    } else if trim_spec(ps.last()).len() == 0 {
        nonblank(ps.drop_last())
    } else {
        nonblank(ps.drop_last()).push(ps.last())
    }
}

/// The first pattern that does not parse under the backslash rule, with its
/// error text.
pub open spec fn first_bad_glob(ps: Seq<Seq<char>>, backslash_sep: bool) -> Option<(Seq<char>, Seq<char>)>
    decreases ps.len(),
{
    if ps.len() == 0 {
        None
    } else {
        match glob_new_error(ps[0], backslash_sep) {
            Some(m) => Some((ps[0], m)),
            None => first_bad_glob(ps.drop_first(), backslash_sep),
        }
    }
}

/// Each pattern paired with the backslash rule it is parsed under.
pub open spec fn with_rule(ps: Seq<Seq<char>>, backslash_sep: bool) -> Seq<(Seq<char>, bool)> {
    ps.map_values(|p: Seq<char>| (p, backslash_sep))
}

/// What compiling these patterns into one set gives: the globs of the set,
/// or the error text (`bad glob <pattern>: <error>` for the first pattern
/// that does not parse, `globset build: <error>` when the set does not
/// compile).
pub open spec fn globset_outcome(ps: Seq<Seq<char>>, backslash_sep: bool) -> Result<
    Seq<(Seq<char>, bool)>,
    Seq<char>,
> {
    match first_bad_glob(ps, backslash_sep) {
        Some((p, m)) => Err("bad glob "@ + p + ": "@ + m),
        None => match glob_build_error(with_rule(ps, backslash_sep)) {
            Some(m) => Err("globset build: "@ + m),
            None => Ok(with_rule(ps, backslash_sep)),
        },
    }
}

proof fn lemma_first_bad_push(ps: Seq<Seq<char>>, p: Seq<char>, f: bool)
    ensures
        first_bad_glob(ps.push(p), f) == (match first_bad_glob(ps, f) {
            Some(x) => Some(x),
            None => match glob_new_error(p, f) {
                Some(m) => Some((p, m)),
                None => None,
            },
        }),
    decreases ps.len(),
{
    if ps.len() > 0 {
        assert(ps.push(p)[0] == ps[0]);
        assert(ps.push(p).drop_first() =~= ps.drop_first().push(p));
        lemma_first_bad_push(ps.drop_first(), p, f);
    } else {
        assert(ps.push(p)[0] == p);
        assert(ps.push(p).drop_first() =~= Seq::<Seq<char>>::empty());
        assert(first_bad_glob(Seq::<Seq<char>>::empty(), f) is None);
    }
}

/// Compiles the non-blank patterns (or the defaults when `patterns` is
/// empty) under the given backslash rule.  A pattern that does not parse is
/// reported as `bad glob <pattern>: <error>`; a failure to compile the set
/// as `globset build: <error>`.
pub fn build_globset(patterns: &Vec<String>, default: &Vec<String>, rule: SeparatorRule) -> (r:
    Result<globset::GlobSet, AppError>)
    ensures
        match globset_outcome(
            nonblank(effective_patterns(texts(patterns@), texts(default@))),
            rule.backslash_separates(),
        ) {
            Ok(g) => r matches Ok(s) && set_globs(s) == g,
            Err(t) => r matches Err(AppError::Config(e)) && e@ == t,
        },
{
    let src: &Vec<String> = if patterns.len() == 0 {
        default
    } else {
        patterns
    };
    let ghost all = effective_patterns(texts(patterns@), texts(default@));
    let ghost backslash_sep = rule.backslash_separates();
    assert(texts(src@) == all);
    let mut b = builder_new();
    let mut i: usize = 0;
    assert(all.subrange(0, 0) =~= Seq::<Seq<char>>::empty());
    assert(with_rule(Seq::<Seq<char>>::empty(), backslash_sep) =~= Seq::<(Seq<char>, bool)>::empty());
    while i < src.len()
        invariant
            texts(src@) == all,
            all == effective_patterns(texts(patterns@), texts(default@)),
            i <= all.len(),
            builder_globs(b) == with_rule(nonblank(all.subrange(0, i as int)), backslash_sep),
            first_bad_glob(nonblank(all.subrange(0, i as int)), backslash_sep) is None,
            backslash_sep == rule.backslash_separates(),
        decreases all.len() - i,
    {
        let p = &src[i];
        assert(all[i as int] == p@);
        assert(all.subrange(0, i + 1).drop_last() =~= all.subrange(0, i as int));
        let t = trim(p.as_str());
        if t.unicode_len() == 0 {
            i = i + 1;
            continue;
        }
        proof {
            lemma_first_bad_push(nonblank(all.subrange(0, i as int)), p@, backslash_sep);
            let q = all.subrange(0, i + 1);
            assert(q.last() == p@);
            assert(q.drop_last() =~= all.subrange(0, i as int));
            assert(nonblank(q) == nonblank(all.subrange(0, i as int)).push(p@));
        }
        match glob_new(p.as_str(), rule) {
            Ok(g) => {
                builder_add(&mut b, g);
                assert(with_rule(nonblank(all.subrange(0, i + 1)), backslash_sep) =~= with_rule(
                    nonblank(all.subrange(0, i as int)),
                    backslash_sep,
                ).push((p@, backslash_sep)));
            },
            Err(e) => {
                proof {
                    lemma_first_bad_prefix(all, i as int + 1, backslash_sep);
                }
                let m = concat3("bad glob ", p.as_str(), ": ");
                let t = concat2(m.as_str(), e.as_str());
                assert(first_bad_glob(nonblank(all), backslash_sep) == Some((p@, e@)));
                assert(t@ =~= "bad glob "@ + p@ + ": "@ + e@);
                return Err(AppError::Config(t));
            },
        }
        i = i + 1;
    }
    assert(all.subrange(0, all.len() as int) =~= all);
    match builder_build(&b) {
        Ok(s) => Ok(s),
        Err(e) => {
            let t = concat2("globset build: ", e.as_str());
            Err(AppError::Config(t))
        },
    }
}

/// A bad pattern among the first `n` is the first bad pattern overall.
proof fn lemma_first_bad_prefix(all: Seq<Seq<char>>, n: int, f: bool)
    requires
        0 <= n <= all.len(),
        first_bad_glob(nonblank(all.subrange(0, n)), f) is Some,
    ensures
        first_bad_glob(nonblank(all), f) == first_bad_glob(nonblank(all.subrange(0, n)), f),
    decreases all.len() - n,
{
    if n < all.len() {
        assert(all.subrange(0, n + 1).subrange(0, n) =~= all.subrange(0, n));
        lemma_first_bad_prefix_step(all.subrange(0, n + 1), n, f);
        lemma_first_bad_prefix(all, n + 1, f);
    } else {
        assert(all.subrange(0, n) =~= all);
    }
}

proof fn lemma_first_bad_prefix_step(s: Seq<Seq<char>>, n: int, f: bool)
    requires
        0 <= n,
        n + 1 == s.len(),
        first_bad_glob(nonblank(s.subrange(0, n)), f) is Some,
    ensures
        first_bad_glob(nonblank(s), f) == first_bad_glob(nonblank(s.subrange(0, n)), f),
{
    assert(s.drop_last() =~= s.subrange(0, n));
    if trim_spec(s.last()).len() != 0 {
        lemma_first_bad_push(nonblank(s.drop_last()), s.last(), f);
    }
}

// ---------------------------------------------------------------------------
// Selection
// ---------------------------------------------------------------------------

/// The compiled globs of a game: those a file must match (`wanted`) and
/// those it must not match (`exclude`).
pub struct Selector {
    pub wanted: globset::GlobSet,
    pub exclude: globset::GlobSet,
}

/// Whether a relative path is synced: read with `/` for every backslash,
/// it matches a wanted glob and no excluding one.
pub open spec fn selected(sel: Selector, rel: Seq<char>) -> bool {
    let p = crate::text::map_char(rel, '\\', '/');
    any_matches(set_globs(sel.wanted), p) && !any_matches(set_globs(sel.exclude), p)
}

/// The wanted patterns of a game: its include globs, or `**/*` when it has
/// none, without blank ones.
pub open spec fn wanted_patterns(game: GameProfile) -> Seq<Seq<char>> {
    nonblank(effective_patterns(texts(game.include_globs@), seq!["**/*"@]))
}

/// The excluding patterns of a game, without blank ones.
pub open spec fn excluded_patterns(game: GameProfile) -> Seq<Seq<char>> {
    nonblank(texts(game.exclude@))
}

/// What compiling a game's globs under a backslash rule gives: the wanted
/// set is compiled first, and its error comes first.
pub open spec fn selector_outcome(game: GameProfile, backslash_sep: bool, r: Result<Selector, AppError>) -> bool {
    match globset_outcome(wanted_patterns(game), backslash_sep) {
        Err(t) => r matches Err(AppError::Config(e)) && e@ == t,
        Ok(w) => match globset_outcome(excluded_patterns(game), backslash_sep) {
            Err(t) => r matches Err(AppError::Config(e)) && e@ == t,
            Ok(x) => r matches Ok(sel) && set_globs(sel.wanted) == w && set_globs(sel.exclude) == x,
        },
    }
}

/// Compiles a game's globs under the given backslash rule; with no wanted
/// pattern every file (`**/*`) is wanted.
pub fn selector_with(game: &GameProfile, rule: SeparatorRule) -> (r: Result<Selector, AppError>)
    ensures
        selector_outcome(*game, rule.backslash_separates(), r),
{
    let mut def: Vec<String> = Vec::new();
    def.push(owned("**/*"));
    assert(texts(def@) =~= seq!["**/*"@]);
    let wanted = match build_globset(&game.include_globs, &def, rule) {
        Ok(s) => s,
        Err(e) => {
            return Err(e);
        },
    };
    let none: Vec<String> = Vec::new();
    assert(effective_patterns(texts(game.exclude@), texts(none@)) == texts(game.exclude@));
    let exclude = match build_globset(&game.exclude, &none, rule) {
        Ok(s) => s,
        Err(e) => {
            return Err(e);
        },
    };
    Ok(Selector { wanted, exclude })
}

/// Compiles a game's globs under this platform's backslash rule (a
/// separator on Windows, an escape elsewhere).
pub fn selector_for(game: &GameProfile) -> (r: Result<Selector, AppError>)
    ensures
        exists|backslash_sep: bool| selector_outcome(*game, backslash_sep, r),
{
    let rule = separator_rule();
    selector_with(game, rule)
}

/// Whether a relative path is synced.
pub fn is_selected(sel: &Selector, rel: &str) -> (r: bool)
    ensures
        r == selected(*sel, rel@),
{
    let p = crate::text::replace_char(rel, '\\', '/');
    assert(no_backslash(p@));
    if !set_is_match(&sel.wanted, p.as_str()) {
        return false;
    }
    if set_is_empty(&sel.exclude) {
        return true;
    }
    !set_is_match(&sel.exclude, p.as_str())
}

// ---------------------------------------------------------------------------
// Reusing hashes
// ---------------------------------------------------------------------------

/// What the previous sync recorded of a file.
#[derive(Debug, Clone)]
pub struct ScanHint {
    pub size: u64,
    pub modified_ms: i64,
    pub sha256: String,
}

/// Hints by relative path.
pub type ScanHints = KeyMap<ScanHint>;

/// The hint that an index entry gives.
pub open spec fn hint_matches(h: ScanHint, e: RemoteIndexEntry) -> bool {
    h.size == e.size && h.modified_ms == e.modified_ms && h.sha256@ == e.sha256@
}

proof fn lemma_hint_entries(es: Seq<(String, RemoteIndexEntry)>, hs: Seq<(String, ScanHint)>)
    requires
        es.len() == hs.len(),
        forall|j: int| 0 <= j < es.len() ==> (#[trigger] hs[j]).0@ == es[j].0@ && hint_matches(
            hs[j].1,
            es[j].1,
        ),
    ensures
        forall|k: Seq<char>| #[trigger] crate::keymap::entries_map(hs).contains_key(k)
            == crate::keymap::entries_map(es).contains_key(k),
        forall|k: Seq<char>| #[trigger] crate::keymap::entries_map(hs).contains_key(k)
            ==> hint_matches(
            crate::keymap::entries_map(hs)[k],
            crate::keymap::entries_map(es)[k],
        ),
    decreases es.len(),
{
    if es.len() > 0 {
        let e2 = es.drop_last();
        let h2 = hs.drop_last();
        assert forall|j: int| 0 <= j < e2.len() implies (#[trigger] h2[j]).0@ == e2[j].0@
            && hint_matches(h2[j].1, e2[j].1) by {
            assert(h2[j] == hs[j]);
            assert(e2[j] == es[j]);
        }
        lemma_hint_entries(e2, h2);
        let lk = es.last().0@;
        assert(hs.last().0@ == lk);
        assert(hint_matches(hs.last().1, es.last().1));
        let mh = crate::keymap::entries_map(hs);
        let me = crate::keymap::entries_map(es);
        assert(mh == crate::keymap::entries_map(h2).insert(lk, hs.last().1));
        assert(me == crate::keymap::entries_map(e2).insert(lk, es.last().1));
        assert forall|k: Seq<char>| #[trigger] mh.contains_key(k) == me.contains_key(k) by {
            if k != lk {
                assert(crate::keymap::entries_map(h2).contains_key(k) == crate::keymap::entries_map(
                    e2,
                ).contains_key(k));
            }
        }
        assert forall|k: Seq<char>| #[trigger] mh.contains_key(k) implies hint_matches(
            mh[k],
            me[k],
        ) by {
            if k != lk {
                assert(crate::keymap::entries_map(h2).contains_key(k));
            }
        }
    }
}

/// Hints from the index recorded after the previous sync.
pub fn hints_from_index(idx: &RemoteIndex) -> (h: ScanHints)
    requires
        idx.wf(),
    ensures
        h.wf(),
        forall|k: Seq<char>| #[trigger] h.view_map().contains_key(k) == idx.view().contains_key(k),
        forall|k: Seq<char>| #[trigger] h.view_map().contains_key(k) ==> hint_matches(
            h.view_map()[k],
            idx.view()[k],
        ),
{
    let es = &idx.files.entries;
    let mut out: Vec<(String, ScanHint)> = Vec::new();
    let mut i: usize = 0;
    while i < es.len()
        invariant
            i <= es@.len(),
            out@.len() == i,
            forall|j: int| 0 <= j < i ==> (#[trigger] out@[j]).0@ == es@[j].0@ && hint_matches(
                out@[j].1,
                es@[j].1,
            ),
        decreases es@.len() - i,
    {
        let e = &es[i].1;
        out.push(
            (
                es[i].0.clone(),
                ScanHint { size: e.size, modified_ms: e.modified_ms, sha256: e.sha256.clone() },
            ),
        );
        i = i + 1;
    }
    proof {
        lemma_hint_entries(es@, out@);
        assert(crate::keymap::keys_of(out@) =~= crate::keymap::keys_of(es@));
    }
    KeyMap { entries: out }
}

/// Files up to this size are hashed by content.
pub open spec fn content_hash_limit() -> u64 {
    268435456
}

/// Where a file's hash comes from.
#[derive(Debug)]
pub enum ScanStep {
    /// The file is not selected by the game's globs.
    Skip,
    /// The hash is known without reading the file: `reused` when it is the
    /// previous sync's hash (same size and modification time), otherwise the
    /// stand-in hash of a file too large to read.
    Hashed { sha256: String, reused: bool },
    /// The file's contents must be hashed.
    NeedsContent,
}

/// The hint for `rel`, if any.
pub open spec fn hint_for(h: Map<Seq<char>, ScanHint>, rel: Seq<char>) -> Option<ScanHint> {
    if h.contains_key(rel) {
        Some(h[rel])
    } else {
        None
    }
}

/// Decides what the scan does with a file it found: skip it, take a hash
/// it already knows, or hash its contents.  The previous hash is reused when
/// size and modification time are both unchanged; otherwise files up to
/// 256 MiB are hashed by content and larger ones get the stand-in hash of
/// their size and modification time.
pub fn scan_step(sel: &Selector, hints: &ScanHints, rel: &str, size: u64, modified_ms: i64) -> (r:
    ScanStep)
    requires
        hints.wf(),
    ensures
        !selected(*sel, rel@) ==> r is Skip,
        selected(*sel, rel@) ==> match hint_for(hints.view_map(), rel@) {
            Some(h) => if h.size == size && h.modified_ms == modified_ms {
                r matches ScanStep::Hashed { sha256, reused } && reused && sha256@ == h.sha256@
            } else if size <= content_hash_limit() {
                r is NeedsContent
            } else {
                r matches ScanStep::Hashed { sha256, reused } && !reused && sha256@
                    == crate::digest::hex_lower(
                    crate::digest::sha256_of(
                        crate::digest::le_bytes(size as nat, 8) + crate::digest::le_bytes(
                            (modified_ms as u64) as nat,
                            8,
                        ),
                    ),
                )
            },
            None => if size <= content_hash_limit() {
                r is NeedsContent
            } else {
                r matches ScanStep::Hashed { sha256, reused } && !reused && sha256@
                    == crate::digest::hex_lower(
                    crate::digest::sha256_of(
                        crate::digest::le_bytes(size as nat, 8) + crate::digest::le_bytes(
                            (modified_ms as u64) as nat,
                            8,
                        ),
                    ),
                )
            },
        },
{
    if !is_selected(sel, rel) {
        return ScanStep::Skip;
    }
    match hints.get(rel) {
        Some(h) => {
            if h.size == size && h.modified_ms == modified_ms {
                return ScanStep::Hashed { sha256: h.sha256.clone(), reused: true };
            }
        },
        None => {},
    }
    if size <= 268435456 {
        ScanStep::NeedsContent
    } else {
        ScanStep::Hashed { sha256: crate::digest::fallback_hash(size, modified_ms), reused: false }
    }
}

// ---------------------------------------------------------------------------
// Roots and result
// ---------------------------------------------------------------------------

/// The save-path roots of a game, each expanded with the given directories;
/// a game without save paths is a configuration error, and the first path
/// that does not expand fails the scan.
pub fn scan_roots(game: &GameProfile, dirs: &KnownDirs) -> (r: Result<Vec<LocalPath>, AppError>)
    ensures
        game.save_paths@.len() == 0 ==> (r matches Err(AppError::Config(m)) && m@ == "game "@
            + game.name@ + " has no save paths"@),
        r matches Ok(v) ==> v@.len() == game.save_paths@.len() && forall|i: int|
            0 <= i < v@.len() ==> path_outcome(
                Ok(#[trigger] v@[i]),
                expand_spec(game.save_paths@[i]@, *dirs),
            ),
        r matches Err(AppError::Path(_)) ==> exists|i: int|
            0 <= i < game.save_paths@.len() && #[trigger] expand_spec(game.save_paths@[i]@, *dirs)
                is Err,
        game.save_paths@.len() > 0 && (forall|i: int|
            0 <= i < game.save_paths@.len() ==> #[trigger] expand_spec(game.save_paths@[i]@, *dirs)
                is Ok) ==> r is Ok,
{
    if game.save_paths.len() == 0 {
        return Err(AppError::Config(concat3("game ", game.name.as_str(), " has no save paths")));
    }
    let mut roots: Vec<LocalPath> = Vec::new();
    let mut i: usize = 0;
    while i < game.save_paths.len()
        invariant
            i <= game.save_paths@.len(),
            roots@.len() == i,
            forall|j: int| 0 <= j < i ==> path_outcome(
                Ok(#[trigger] roots@[j]),
                expand_spec(game.save_paths@[j]@, *dirs),
            ),
            forall|j: int| 0 <= j < i ==> #[trigger] expand_spec(game.save_paths@[j]@, *dirs) is Ok,
        decreases game.save_paths@.len() - i,
    {
        match expand_with(game.save_paths[i].as_str(), dirs) {
            Ok(p) => {
                roots.push(p);
            },
            Err(e) => {
                assert(expand_spec(game.save_paths@[i as int]@, *dirs) is Err);
                return Err(e);
            },
        }
        i = i + 1;
    }
    Ok(roots)
}

/// Inserts a file before the first one whose relative path sorts after it:
/// a stable step of sorting by relative path.
pub open spec fn insert_by_relative(s: Seq<LocalFile>, x: LocalFile) -> Seq<LocalFile>
    decreases s.len(),
{
    if s.len() == 0 {
        seq![x]
    } else if seq_lt(x.relative@, s[0].relative@) {
        seq![x] + s
    } else {
        seq![s[0]] + insert_by_relative(s.drop_first(), x)
    }
}

/// Stable sort by relative path.
pub open spec fn sort_by_relative(s: Seq<LocalFile>) -> Seq<LocalFile>
    decreases s.len(),
{
    if s.len() == 0 {
        s
    } else {
        insert_by_relative(sort_by_relative(s.drop_last()), s.last())
    }
}

proof fn lemma_insert_by_relative_at(s: Seq<LocalFile>, x: LocalFile, p: int)
    requires
        0 <= p <= s.len(),
        forall|k: int| 0 <= k < p ==> !seq_lt(x.relative@, #[trigger] s[k].relative@),
        p < s.len() ==> seq_lt(x.relative@, s[p].relative@),
    ensures
        insert_by_relative(s, x) == s.insert(p, x),
    decreases s.len(),
{
    if s.len() == 0 {
        assert(s.insert(p, x) =~= seq![x]);
    } else if p == 0 {
        assert(s.insert(p, x) =~= seq![x] + s);
    } else {
        let t = s.drop_first();
        assert forall|k: int| 0 <= k < p - 1 implies !seq_lt(x.relative@, #[trigger] t[k].relative@) by {
            assert(t[k] == s[k + 1]);
        }
        if p - 1 < t.len() {
            assert(t[p - 1] == s[p]);
        }
        lemma_insert_by_relative_at(t, x, p - 1);
        assert(seq![s[0]] + t.insert(p - 1, x) =~= s.insert(p, x));
    }
}

/// Sorts scanned files by relative path, keeping the scan order among files
/// with the same relative path.
pub fn sort_files(files: Vec<LocalFile>) -> (r: Vec<LocalFile>)
    ensures
        r@ == sort_by_relative(files@),
{
    let mut out: Vec<LocalFile> = Vec::new();
    let mut i: usize = 0;
    assert(files@.subrange(0, 0) =~= Seq::<LocalFile>::empty());
    while i < files.len()
        invariant
            i <= files@.len(),
            out@ == sort_by_relative(files@.subrange(0, i as int)),
        decreases files@.len() - i,
    {
        let x = files[i].clone();
        let mut p: usize = 0;
        while p < out.len() && !str_less(x.relative.as_str(), out[p].relative.as_str())
            invariant
                p <= out@.len(),
                forall|k: int| 0 <= k < p ==> !seq_lt(x.relative@, #[trigger] out@[k].relative@),
            decreases out@.len() - p,
        {
            p = p + 1;
        }
        proof {
            lemma_insert_by_relative_at(out@, x, p as int);
            assert(files@.subrange(0, i + 1).drop_last() =~= files@.subrange(0, i as int));
        }
        out.insert(p, x);
        i = i + 1;
    }
    assert(files@.subrange(0, files@.len() as int) =~= files@);
    out
}

/// The outcome of scanning a game.
#[derive(Debug)]
pub struct ScannedGame {
    pub game_id: String,
    pub roots: Vec<LocalPath>,
    /// Files sorted by relative path.
    pub files: Vec<LocalFile>,
    /// Files whose previous hash was reused.
    pub reused_hashes: usize,
}

/// Assembles a scan's result, sorting the files.
pub fn finish_scan(game_id: String, roots: Vec<LocalPath>, files: Vec<LocalFile>, reused_hashes: usize) -> (r:
    ScannedGame)
    ensures
        r.game_id == game_id,
        r.roots@ == roots@,
        r.files@ == sort_by_relative(files@),
        r.reused_hashes == reused_hashes,
{
    let sorted = sort_files(files);
    ScannedGame { game_id, roots, files: sorted, reused_hashes }
}

/// A game's local save footprint: how many files, how many bytes.
#[derive(Debug, Clone, Copy)]
pub struct GameSizeInfo {
    pub file_count: usize,
    pub total_bytes: u64,
}

/// The footprint of scanned files.
pub fn size_info(files: &Vec<LocalFile>) -> (r: GameSizeInfo)
    requires
        crate::engine::upload_bytes(files@) <= u64::MAX,
    ensures
        r.file_count == files@.len(),
        r.total_bytes == crate::engine::upload_bytes(files@),
{
    GameSizeInfo { file_count: files.len(), total_bytes: crate::run::total_upload_bytes(files) }
}

} // verus!
