//! The path and naming rules of the storage backends: how WebDAV keys map
//! to server paths and back (including percent-decoding of listed hrefs),
//! which collections must exist before a write, how listing and deletion
//! errors are classified, and the small conversions of S3 listings.  The
//! HTTP and S3 calls themselves are made outside the library.

use crate::error::AppError;
use crate::keymap::KeyMap;
use crate::model::{S3Config, WebDAVConfig};
use crate::paths::{string_from_utf8_lossy, utf8_lossy_text};
use crate::text::{
    char_pred, chars_of, concat2, concat3, contains_str, ends_with, find_str, first_occurrence,
    occurs_at, owned, seq_contains_sub, seq_ends_with, split_char, split_spec, str_eq,
    string_from_chars, substring, trim_end_by, trim_end_char, trim_start_by, trim_start_char,
};
use vstd::prelude::*;
use vstd::utf8::{decode_utf8, encode_utf8, valid_utf8};

verus! {

broadcast use vstd::string::group_string_axioms;

// ---------------------------------------------------------------------------
// Percent-decoding
// ---------------------------------------------------------------------------

/// Value of an ASCII hex digit.
pub open spec fn hex_val(b: u8) -> Option<u8> {
    if 48 <= b <= 57 {
        Some((b - 48) as u8)
    } else if 65 <= b <= 70 {
        Some((b - 55) as u8)
    } else if 97 <= b <= 102 {
        Some((b - 87) as u8)
    } else {
        None
    }
}

/// What `u8::from_str_radix(_, 16)` gives for the two bytes after a `%`:
/// two hex digits, or `+` and one hex digit.
pub open spec fn pct_value(b1: u8, b2: u8) -> Option<u8> {
    if b1 == 43 {
        hex_val(b2)
    } else {
        match (hex_val(b1), hex_val(b2)) {
            (Some(h), Some(l)) => Some((h * 16 + l) as u8),
            _ => None,
        }
    }
}

/// The bytes with every decodable `%XY` escape replaced by its byte.
pub open spec fn pct_decode_bytes(bs: Seq<u8>) -> Seq<u8>
    decreases bs.len(),
{
    if bs.len() == 0 {
        bs
    } else if bs[0] == 37 && 2 < bs.len() && pct_value(bs[1], bs[2]) is Some {
        seq![pct_value(bs[1], bs[2])->0] + pct_decode_bytes(bs.subrange(3, bs.len() as int))
    } else {
        seq![bs[0]] + pct_decode_bytes(bs.drop_first())
    }
}

/// Text of bytes that may not be UTF-8, as `String::from_utf8_lossy` makes
/// it.
pub open spec fn lossy(b: Seq<u8>) -> Seq<char> {
    if valid_utf8(b) {
        decode_utf8(b)
    } else {
        utf8_lossy_text(b)
    }
}

/// Percent-decoding of a listed href.
pub open spec fn percent_decode_spec(s: Seq<char>) -> Seq<char> {
    lossy(pct_decode_bytes(encode_utf8(s)))
}

fn hex_val_exec(b: u8) -> (r: Option<u8>)
    ensures
        r == hex_val(b),
{
    if 48 <= b && b <= 57 {
        Some(b - 48)
    } else if 65 <= b && b <= 70 {
        Some(b - 55)
    } else if 97 <= b && b <= 102 {
        Some(b - 87)
    } else {
        None
    }
}

fn pct_value_exec(b1: u8, b2: u8) -> (r: Option<u8>)
    ensures
        r == pct_value(b1, b2),
{
    if b1 == 43 {
        return hex_val_exec(b2);
    }
    match (hex_val_exec(b1), hex_val_exec(b2)) {
        (Some(h), Some(l)) => {
            assert(h * 16 + l < 256) by (nonlinear_arith)
                requires
                    h < 16,
                    l < 16,
            ;
            Some(h * 16 + l)
        },
        _ => None,
    }
}

/// Decodes `%XY` escapes byte-wise, so that escaped multi-byte UTF-8 names
/// come back whole; what is not a valid escape is kept as it is.
pub fn percent_decode(s: &str) -> (r: String)
    ensures
        r@ == percent_decode_spec(s@),
{
    let bytes = s.as_bytes();
    let mut buf: Vec<u8> = Vec::new();
    let mut i: usize = 0;
    assert(bytes@.subrange(0, bytes@.len() as int) =~= bytes@);
    while i < bytes.len()
        invariant
            i <= bytes@.len(),
            buf@ + pct_decode_bytes(bytes@.subrange(i as int, bytes@.len() as int))
                == pct_decode_bytes(bytes@),
        decreases bytes@.len() - i,
    {
        let ghost rest = bytes@.subrange(i as int, bytes@.len() as int);
        let b = bytes[i];
        if b == 37 && bytes.len() - i > 2 {
            match pct_value_exec(bytes[i + 1], bytes[i + 2]) {
                Some(v) => {
                    assert(rest[1] == bytes@[i + 1] && rest[2] == bytes@[i + 2]);
                    assert(rest.subrange(3, rest.len() as int) =~= bytes@.subrange(
                        i + 3,
                        bytes@.len() as int,
                    ));
                    let ghost before = buf@;
                    buf.push(v);
                    assert(buf@ + pct_decode_bytes(bytes@.subrange(i + 3, bytes@.len() as int))
                        =~= before + pct_decode_bytes(rest));
                    i = i + 3;
                    continue;
                },
                None => {
                    assert(rest[1] == bytes@[i + 1] && rest[2] == bytes@[i + 2]);
                },
            }
        }
        assert(rest.drop_first() =~= bytes@.subrange(i + 1, bytes@.len() as int));
        let ghost before = buf@;
        buf.push(b);
        assert(buf@ + pct_decode_bytes(bytes@.subrange(i + 1, bytes@.len() as int)) =~= before
            + pct_decode_bytes(rest));
        i = i + 1;
    }
    assert(buf@ =~= pct_decode_bytes(bytes@));
    string_from_utf8_lossy(buf.as_slice())
}

// ---------------------------------------------------------------------------
// WebDAV paths
// ---------------------------------------------------------------------------

/// The key a listed href stands for: the text after `/<base prefix>/`, or
/// else after the host of a full URL, or else the href without leading
/// slashes (all after percent-decoding).
pub open spec fn strip_webdav_prefix_spec(href: Seq<char>, base: Seq<char>) -> Seq<char> {
    let d = percent_decode_spec(href);
    let needle = "/"@ + base + "/"@;
    if base.len() > 0 && seq_contains_sub(d, needle) {
        let i = choose|i: int| first_occurrence(d, needle, i);
        d.subrange(i + needle.len(), d.len() as int)
    } else if seq_contains_sub(d, "://"@) && seq_contains_sub(
        d.subrange((choose|i: int| first_occurrence(d, "://"@, i)) + 3, d.len() as int),
        "/"@,
    ) {
        let i = choose|i: int| first_occurrence(d, "://"@, i);
        let rest = d.subrange(i + 3, d.len() as int);
        let j = choose|j: int| first_occurrence(rest, "/"@, j);
        d.subrange(i + 3 + j + 1, d.len() as int)
    } else {
        trim_start_by(d, char_pred('/'))
    }
}

proof fn lemma_first_occurrence_unique(s: Seq<char>, p: Seq<char>, i: int, j: int)
    requires
        first_occurrence(s, p, i),
        first_occurrence(s, p, j),
    ensures
        i == j,
{
}

/// Maps a listed href back to a key.
pub fn strip_webdav_prefix(href: &str, base_prefix: &str) -> (r: String)
    ensures
        r@ == strip_webdav_prefix_spec(href@, base_prefix@),
{
    proof {
        reveal_strlit("/");
        reveal_strlit("://");
    }
    let decoded = percent_decode(href);
    let x = chars_of(decoded.as_str());
    if base_prefix.unicode_len() > 0 {
        let needle = concat3("/", base_prefix, "/");
        match find_str(decoded.as_str(), needle.as_str()) {
            Some(i) => {
                proof {
                    let c = choose|k: int| first_occurrence(decoded@, needle@, k);
                    lemma_first_occurrence_unique(decoded@, needle@, i as int, c);
                }
                let n = needle.unicode_len();
                return substring(&x, i + n, x.len());
            },
            None => {},
        }
    }
    match find_str(decoded.as_str(), "://") {
        Some(i) => {
            let xl = x.len();
            assert(x@ == decoded@);
            assert(i + 3 <= xl);
            let rest = substring(&x, i + 3, xl);
            proof {
                let c = choose|k: int| first_occurrence(decoded@, "://"@, k);
                lemma_first_occurrence_unique(decoded@, "://"@, i as int, c);
            }
            match find_str(rest.as_str(), "/") {
                Some(j) => {
                    proof {
                        let c = choose|k: int| first_occurrence(rest@, "/"@, k);
                        lemma_first_occurrence_unique(rest@, "/"@, j as int, c);
                    }
                    return substring(&x, i + 3 + j + 1, x.len());
                },
                None => {},
            }
        },
        None => {},
    }
    trim_start_char(decoded.as_str(), '/')
}

/// A backend's key prefix with leading and trailing slashes removed.
pub open spec fn base_prefix_spec(prefix: Seq<char>) -> Seq<char> {
    trim_end_by(trim_start_by(prefix, char_pred('/')), char_pred('/'))
}

/// The prefix a WebDAV backend puts before its keys.
pub fn base_prefix_of(prefix: &str) -> (r: String)
    ensures
        r@ == base_prefix_spec(prefix@),
{
    let a = trim_start_char(prefix, '/');
    trim_end_char(a.as_str(), '/')
}

/// A server URL without trailing slashes.
pub fn host_of(url: &str) -> (r: String)
    ensures
        r@ == trim_end_by(url@, char_pred('/')),
{
    trim_end_char(url, '/')
}

/// The server path of a key: `/<base>/<key>` (or `/<key>` without a base),
/// the key's leading slashes dropped.
pub open spec fn full_path_spec(base: Seq<char>, key: Seq<char>) -> Seq<char> {
    let k = trim_start_by(key, char_pred('/'));
    if base.len() == 0 {
        "/"@ + k
    } else {
        "/"@ + base + "/"@ + k
    }
}

/// The server path of a key.
pub fn full_path(base_prefix: &str, key: &str) -> (r: String)
    ensures
        r@ == full_path_spec(base_prefix@, key@),
{
    let k = trim_start_char(key, '/');
    if base_prefix.unicode_len() == 0 {
        concat2("/", k.as_str())
    } else {
        let a = concat3("/", base_prefix, "/");
        concat2(a.as_str(), k.as_str())
    }
}

/// Refuses a WebDAV backend without a URL.
pub fn check_webdav_config(cfg: &WebDAVConfig) -> (r: Result<(), AppError>)
    ensures
        r is Ok <==> cfg.url@.len() > 0,
        r is Err ==> (r matches Err(AppError::Config(m)) && m@ == "url required"@),
{
    if cfg.url.unicode_len() == 0 {
        Err(AppError::Config(owned("url required")))
    } else {
        Ok(())
    }
}

/// The non-empty pieces, in order.
pub open spec fn nonempty_pieces(ps: Seq<Seq<char>>) -> Seq<Seq<char>>
    decreases ps.len(),
{
    if ps.len() == 0 {
        ps
    } else if ps.last().len() > 0 {
        nonempty_pieces(ps.drop_last()).push(ps.last())
    } else {
        nonempty_pieces(ps.drop_last())
    }
}

/// The non-empty `/`-separated segments of a path.
pub open spec fn segments(p: Seq<char>) -> Seq<Seq<char>> {
    nonempty_pieces(split_spec(p, '/'))
}

/// `/s0/s1/.../s(n-1)`.
pub open spec fn joined(parts: Seq<Seq<char>>, n: int) -> Seq<char>
    decreases n,
{
    if n <= 0 {
        Seq::empty()
    } else {
        joined(parts, n - 1) + "/"@ + parts[n - 1]
    }
}

/// The collections above a path that are not yet known to exist, from the
/// outermost in.
pub open spec fn dirs_needed_upto(parts: Seq<Seq<char>>, created: Set<Seq<char>>, n: int) -> Seq<
    Seq<char>,
>
    decreases n,
{
    if n <= 0 {
        Seq::empty()
    } else if created.contains(joined(parts, n)) {
        dirs_needed_upto(parts, created, n - 1)
    } else {
        dirs_needed_upto(parts, created, n - 1).push(joined(parts, n))
    }
}

/// The collections to create before writing `path`.
pub open spec fn dirs_needed(path: Seq<char>, created: Set<Seq<char>>) -> Seq<Seq<char>> {
    let parts = segments(path);
    if parts.len() <= 1 {
        Seq::empty()
    } else {
        dirs_needed_upto(parts, created, parts.len() - 1)
    }
}

fn nonempty_segments(path: &str) -> (r: Vec<String>)
    ensures
        r@.map_values(|s: String| s@) == segments(path@),
{
    let all = split_char(path, '/');
    let ghost sv = split_spec(path@, '/');
    let mut out: Vec<String> = Vec::new();
    let mut i: usize = 0;
    assert(sv.subrange(0, 0) =~= Seq::<Seq<char>>::empty());
    while i < all.len()
        invariant
            i <= all@.len(),
            all@.len() == sv.len(),
            forall|j: int| 0 <= j < all@.len() ==> #[trigger] all@[j]@ == sv[j],
            out@.map_values(|s: String| s@) == nonempty_pieces(sv.subrange(0, i as int)),
        decreases all@.len() - i,
    {
        let ghost before = out@;
        proof {
            let q = sv.subrange(0, i + 1);
            assert(q.drop_last() =~= sv.subrange(0, i as int));
            assert(q.last() == sv[i as int]);
        }
        if all[i].unicode_len() > 0 {
            out.push(all[i].clone());
            assert(out@.map_values(|s: String| s@) =~= before.map_values(|s: String| s@).push(
                all@[i as int]@,
            ));
        }
        i = i + 1;
    }
    assert(sv.subrange(0, sv.len() as int) =~= sv);
    out
}

/// The collections (server paths) to create before writing `path`, given
/// those already created.
pub fn dirs_to_create(path: &str, created: &KeyMap<bool>) -> (r: Vec<String>)
    requires
        created.wf(),
    ensures
        r@.map_values(|s: String| s@) == dirs_needed(path@, created.view_map().dom()),
{
    let parts = nonempty_segments(path);
    let ghost pv = parts@.map_values(|s: String| s@);
    let mut out: Vec<String> = Vec::new();
    if parts.len() <= 1 {
        assert(out@.map_values(|s: String| s@) =~= Seq::<Seq<char>>::empty());
        return out;
    }
    let mut cur = String::new();
    let mut k: usize = 0;
    assert(cur@ =~= joined(pv, 0));
    while k < parts.len() - 1
        invariant
            parts@.len() > 1,
            pv == parts@.map_values(|s: String| s@),
            k <= parts@.len() - 1,
            cur@ == joined(pv, k as int),
            out@.map_values(|s: String| s@) == dirs_needed_upto(
                pv,
                created.view_map().dom(),
                k as int,
            ),
            created.wf(),
        decreases parts@.len() - 1 - k,
    {
        let a = concat2(cur.as_str(), "/");
        cur = concat2(a.as_str(), parts[k].as_str());
        assert(pv[k as int] == parts@[k as int]@);
        assert(cur@ =~= joined(pv, k + 1));
        let ghost before = out@;
        if !created.contains_key(cur.as_str()) {
            out.push(cur.clone());
            assert(out@.map_values(|s: String| s@) =~= before.map_values(|s: String| s@).push(cur@));
        }
        k = k + 1;
    }
    out
}

/// Label of a WebDAV backend.
pub fn webdav_label(base_prefix: &str) -> (r: String)
    ensures
        r@ == "webdav:/"@ + base_prefix@,
{
    concat2("webdav:/", base_prefix)
}

/// The collection a connectivity test lists (and creates when missing).
pub fn webdav_root(base_prefix: &str) -> (r: String)
    ensures
        r@ == if base_prefix@.len() == 0 { "/"@ } else { "/"@ + base_prefix@ + "/"@ },
{
    if base_prefix.unicode_len() == 0 {
        owned("/")
    } else {
        concat3("/", base_prefix, "/")
    }
}

/// The collection a recursive listing of `prefix` asks for: its server path
/// with a trailing slash.
pub fn listing_path(base_prefix: &str, prefix: &str) -> (r: String)
    ensures
        r@ == (if seq_ends_with(full_path_spec(base_prefix@, prefix@), "/"@) {
            full_path_spec(base_prefix@, prefix@)
        } else {
            full_path_spec(base_prefix@, prefix@) + "/"@
        }),
{
    let p = full_path(base_prefix, prefix);
    if ends_with(p.as_str(), "/") {
        p
    } else {
        concat2(p.as_str(), "/")
    }
}

/// How a failed listing is reported: a missing collection lists as empty,
/// an authorisation failure as bad credentials, anything else with its
/// path.
pub fn listing_error(path: &str, msg: &str) -> (r: Result<(), AppError>)
    ensures
        (seq_contains_sub(msg@, "404"@) || seq_contains_sub(msg@, "Not Found"@)) ==> r is Ok,
        !(seq_contains_sub(msg@, "404"@) || seq_contains_sub(msg@, "Not Found"@)) ==> {
            &&& (seq_contains_sub(msg@, "401"@) || seq_contains_sub(msg@, "403"@)) ==> (r matches Err(
                AppError::Storage(m),
            ) && m@ == "WebDAV 凭据无效或权限不足 ("@ + msg@ + ")"@)
            &&& !(seq_contains_sub(msg@, "401"@) || seq_contains_sub(msg@, "403"@)) ==> (r matches Err(
                AppError::Storage(m),
            ) && m@ == "list "@ + path@ + ": "@ + msg@)
        },
{
    if contains_str(msg, "404") || contains_str(msg, "Not Found") {
        return Ok(());
    }
    if contains_str(msg, "401") || contains_str(msg, "403") {
        let a = concat3("WebDAV 凭据无效或权限不足 (", msg, ")");
        return Err(AppError::Storage(a));
    }
    let a = concat3("list ", path, ": ");
    Err(AppError::Storage(concat2(a.as_str(), msg)))
}

/// The sub-collection a listed folder leads to, or `None` for the folder
/// being listed itself.
pub fn folder_to_descend(folder_key: &str, prefix: &str) -> (r: Option<String>)
    ensures
        trim_end_by(folder_key@, char_pred('/')) == trim_end_by(prefix@, char_pred('/')) ==> r is None,
        trim_end_by(folder_key@, char_pred('/')) != trim_end_by(prefix@, char_pred('/')) ==> (r matches Some(
            s,
        ) && s@ == trim_end_by(folder_key@, char_pred('/'))),
{
    let a = trim_end_char(folder_key, '/');
    let b = trim_end_char(prefix, '/');
    if str_eq(a.as_str(), b.as_str()) {
        None
    } else {
        Some(a)
    }
}

/// How a failed deletion is reported: a missing object counts as deleted.
pub fn deletion_error(path: &str, msg: &str) -> (r: Result<(), AppError>)
    ensures
        seq_contains_sub(msg@, "404"@) ==> r is Ok,
        !seq_contains_sub(msg@, "404"@) ==> (r matches Err(AppError::Storage(m)) && m@ == "delete "@
            + path@ + ": "@ + msg@),
{
    if contains_str(msg, "404") {
        Ok(())
    } else {
        let a = concat3("delete ", path, ": ");
        Err(AppError::Storage(concat2(a.as_str(), msg)))
    }
}

/// Whether a failed server-side COPY (by HTTP status) shows that the server
/// cannot copy at all (400, 405, 501), so later copies go straight to
/// download-and-upload.
pub fn copy_unsupported(status: u16) -> (b: bool)
    ensures
        b == (status == 405 || status == 501 || status == 400),
{
    status == 405 || status == 501 || status == 400
}

// ---------------------------------------------------------------------------
// S3
// ---------------------------------------------------------------------------

/// Refuses an S3 backend without endpoint or bucket.
pub fn check_s3_config(cfg: &S3Config) -> (r: Result<(), AppError>)
    ensures
        r is Ok <==> (cfg.endpoint@.len() > 0 && cfg.bucket@.len() > 0),
        r is Err ==> (r matches Err(AppError::Config(m)) && m@ == "endpoint/bucket required"@),
{
    if cfg.endpoint.unicode_len() == 0 || cfg.bucket.unicode_len() == 0 {
        Err(AppError::Config(owned("endpoint/bucket required")))
    } else {
        Ok(())
    }
}

/// Label of an S3 backend.
pub fn s3_label(bucket: &str) -> (r: String)
    ensures
        r@ == "s3:"@ + bucket@,
{
    concat2("s3:", bucket)
}

/// An S3 ETag without its surrounding quotes.
pub fn s3_etag(raw: &str) -> (r: String)
    ensures
        r@ == trim_end_by(trim_start_by(raw@, char_pred('"')), char_pred('"')),
{
    let a = trim_start_char(raw, '"');
    trim_end_char(a.as_str(), '"')
}

/// An S3 modification time in milliseconds.
pub fn s3_modified_ms(secs: i64, subsec_nanos: u32) -> (r: i64)
    requires
        i64::MIN <= secs * 1000,
        secs * 1000 + subsec_nanos / 1000000 <= i64::MAX,
    ensures
        r == secs * 1000 + subsec_nanos / 1000000,
{
    secs * 1000 + (subsec_nanos / 1000000) as i64
}

} // verus!
