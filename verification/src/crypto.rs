//! Credential encoding.
//!
//! Stored credentials carry a marker: `gsy1:` for ciphertext produced by an
//! operating-system protection service (Windows DPAPI), `gsy0:` for the
//! plain base64 encoding used where no such service exists or it failed, and
//! no marker for legacy plaintext, which is passed through unchanged.  The
//! service itself is called by the application; the library frames what it
//! hands in and interprets what comes back.

use crate::error::AppError;
use crate::text::{chars_of, concat2, seq_starts_with, starts_with, string_from_chars, trim, trim_spec};
use vstd::prelude::*;
use vstd::utf8::{decode_utf8, encode_utf8, valid_utf8};

verus! {

broadcast use vstd::string::group_string_axioms;

// ---------------------------------------------------------------------------
// Base64
// ---------------------------------------------------------------------------

/// The base64 alphabet (`A-Z a-z 0-9 + /`).
pub open spec fn b64_char(v: nat) -> char {
    if v < 26 {
        ((v + 65) as u8) as char
    } else if v < 52 {
        ((v + 71) as u8) as char
    } else if v < 62 {
        ((v - 4) as u8) as char
    } else if v == 62 {
        '+'
    } else {
        '/'
    }
}

/// The four characters encoding the first (up to three) bytes of `s`.
pub open spec fn b64_group(s: Seq<u8>) -> Seq<char> {
    let b0 = s[0] as nat;
    let b1 = if s.len() > 1 { s[1] as nat } else { 0 };
    let b2 = if s.len() > 2 { s[2] as nat } else { 0 };
    let n = b0 * 65536 + b1 * 256 + b2;
    seq![
        b64_char(n / 262144),
        b64_char((n / 4096) % 64),
        if s.len() > 1 { b64_char((n / 64) % 64) } else { '=' },
        if s.len() > 2 { b64_char(n % 64) } else { '=' },
    ]
}

/// Standard padded base64 of `s`: each group of three bytes becomes four
/// characters, a short final group is padded with `=`.
pub open spec fn b64_encode_spec(s: Seq<u8>) -> Seq<char>
    decreases s.len(),
{
    if s.len() == 0 {
        Seq::empty()
    } else if s.len() <= 3 {
        b64_group(s)
    } else {
        b64_group(s) + b64_encode_spec(s.subrange(3, s.len() as int))
    }
}

fn b64_symbol(v: u32) -> (c: char)
    requires
        v < 64,
    ensures
        c == b64_char(v as nat),
{
    if v < 26 {
        ((v + 65) as u8) as char
    } else if v < 52 {
        ((v + 71) as u8) as char
    } else if v < 62 {
        ((v - 4) as u8) as char
    } else if v == 62 {
        '+'
    } else {
        '/'
    }
}

fn push_group(out: &mut Vec<char>, input: &[u8], i: usize)
    requires
        i < input@.len(),
    ensures
        final(out)@ == old(out)@ + b64_group(input@.subrange(i as int, input@.len() as int)),
{
    let ghost r = input@.subrange(i as int, input@.len() as int);
    let rest = input.len() - i;
    let b0 = input[i] as u32;
    let b1: u32 = if rest > 1 { input[i + 1] as u32 } else { 0 };
    let b2: u32 = if rest > 2 { input[i + 2] as u32 } else { 0 };
    assert(r[0] == b0);
    assert(rest > 1 ==> r[1] == b1);
    assert(rest > 2 ==> r[2] == b2);
    let n: u32 = b0 * 65536 + b1 * 256 + b2;
    let c0 = b64_symbol(n / 262144);
    let c1 = b64_symbol((n / 4096) % 64);
    let c2 = if rest > 1 { b64_symbol((n / 64) % 64) } else { '=' };
    let c3 = if rest > 2 { b64_symbol(n % 64) } else { '=' };
    out.push(c0);
    out.push(c1);
    out.push(c2);
    out.push(c3);
    assert(final(out)@ =~= old(out)@ + b64_group(r));
}

/// Base64-encodes `input` (padded, standard alphabet).
pub fn base64_encode(input: &[u8]) -> (out: String)
    ensures
        out@ == b64_encode_spec(input@),
{
    let mut out: Vec<char> = Vec::new();
    let mut i: usize = 0;
    assert(input@.subrange(0, input@.len() as int) =~= input@);
    while i < input.len()
        invariant
            i <= input@.len(),
            out@ + b64_encode_spec(input@.subrange(i as int, input@.len() as int)) == b64_encode_spec(
                input@,
            ),
        decreases input@.len() - i,
    {
        let ghost r = input@.subrange(i as int, input@.len() as int);
        let ghost before = out@;
        push_group(&mut out, input, i);
        let rest = input.len() - i;
        if rest > 3 {
            assert(r.subrange(3, r.len() as int) =~= input@.subrange(i + 3, input@.len() as int));
            assert(out@ + b64_encode_spec(input@.subrange(i + 3, input@.len() as int)) =~= before
                + b64_encode_spec(r));
            i = i + 3;
        } else {
            assert(input@.subrange(input@.len() as int, input@.len() as int) =~= Seq::<u8>::empty());
            assert(out@ + b64_encode_spec(Seq::<u8>::empty()) =~= before + b64_encode_spec(r));
            i = input.len();
        }
    }
    assert(input@.subrange(i as int, input@.len() as int) =~= Seq::<u8>::empty());
    assert(out@ =~= b64_encode_spec(input@));
    string_from_chars(&out)
}

/// Value of a base64 symbol byte.
pub open spec fn b64_value(c: u8) -> Option<nat> {
    if 65 <= c <= 90 {
        Some((c - 65) as nat)
    } else if 97 <= c <= 122 {
        Some((c - 71) as nat)
    } else if 48 <= c <= 57 {
        Some((c + 4) as nat)
    } else if c == 43 {
        Some(62)
    } else if c == 47 {
        Some(63)
    } else {
        None
    }
}

/// Bytes skipped by the decoder: space, newline, carriage return, tab.
pub open spec fn b64_skip(c: u8) -> bool {
    c == 32 || c == 10 || c == 13 || c == 9
}

pub open spec fn pw2(bits: nat) -> nat {
    if bits == 0 {
        1
    } else if bits == 2 {
        4
    } else if bits == 4 {
        16
    } else {
        64
    }
}

/// Lenient decoding from a bit-accumulator state: skips whitespace, stops at
/// the first `=`, fails on the first other non-alphabet byte (returning that
/// byte), and drops trailing bits that do not fill a byte.
pub open spec fn b64_decode_from(s: Seq<u8>, acc: nat, bits: nat) -> Result<Seq<u8>, u8>
    decreases s.len(),
{
    if s.len() == 0 {
        Ok(Seq::empty())
    } else if s[0] == 61 {
        Ok(Seq::empty())
    } else if b64_skip(s[0]) {
        b64_decode_from(s.drop_first(), acc, bits)
    } else {
        match b64_value(s[0]) {
            None => Err(s[0]),
            Some(v) => {
                let a = acc * 64 + v;
                if bits + 6 >= 8 {
                    let nb = (bits + 6 - 8) as nat;
                    match b64_decode_from(s.drop_first(), a % pw2(nb), nb) {
                        Ok(rest) => Ok(seq![(a / pw2(nb)) as u8] + rest),
                        Err(e) => Err(e),
                    }
                } else {
                    b64_decode_from(s.drop_first(), a, bits + 6)
                }
            },
        }
    }
}

/// `{:#x}` of a byte: `0x` and lowercase hex digits without padding.
pub open spec fn hex_byte_alt(b: u8) -> Seq<char> {
    if b < 16 {
        "0x"@ + seq![crate::digest::hex_digit(b)]
    } else {
        "0x"@ + seq![crate::digest::hex_digit(b / 16), crate::digest::hex_digit(b % 16)]
    }
}

fn hex_digit_char(n: u8) -> (c: char)
    requires
        n < 16,
    ensures
        c == crate::digest::hex_digit(n),
{
    if n < 10 {
        (n + 48) as char
    } else {
        (n + 87) as char
    }
}

fn hex_byte_string(b: u8) -> (s: String)
    ensures
        s@ == hex_byte_alt(b),
{
    let mut v: Vec<char> = Vec::new();
    if b >= 16 {
        v.push(hex_digit_char(b / 16));
    }
    v.push(hex_digit_char(b % 16));
    let digits = string_from_chars(&v);
    proof {
        if b < 16 {
            assert(b % 16 == b);
        }
    }
    let r = concat2("0x", digits.as_str());
    assert(r@ =~= hex_byte_alt(b));
    r
}

/// Result of `base64_decode` on `input`.
pub open spec fn b64_decode_spec(input: Seq<char>) -> Result<Seq<u8>, u8> {
    b64_decode_from(encode_utf8(trim_spec(input)), 0, 0)
}

/// Lenient base64 decoding: the input is trimmed, whitespace bytes are
/// skipped, decoding stops at the first `=`, and any other byte outside the
/// alphabet is an error naming that byte.
pub fn base64_decode(input: &str) -> (r: Result<Vec<u8>, AppError>)
    ensures
        match b64_decode_spec(input@) {
            Ok(bytes) => r matches Ok(v) && v@ == bytes,
            Err(c) => r matches Err(AppError::Other(m)) && m@ == "bad base64 char "@ + hex_byte_alt(c),
        },
{
    let t = trim(input);
    let s = t.as_str().as_bytes();
    let ghost full = s@;
    let mut out: Vec<u8> = Vec::new();
    let mut acc: u32 = 0;
    let mut bits: u32 = 0;
    let mut i: usize = 0;
    let mut stopped = false;
    assert(full.subrange(0, full.len() as int) =~= full);
    while i < s.len() && !stopped
        invariant
            s@ == full,
            full == encode_utf8(trim_spec(input@)),
            i <= full.len(),
            stopped ==> i < full.len() && full[i as int] == 61,
            bits == 0 || bits == 2 || bits == 4 || bits == 6,
            acc < pw2(bits as nat),
            match b64_decode_from(full.subrange(i as int, full.len() as int), acc as nat, bits as nat) {
                Ok(rest) => b64_decode_from(full, 0, 0) == Ok::<Seq<u8>, u8>(out@ + rest),
                Err(c) => b64_decode_from(full, 0, 0) == Err::<Seq<u8>, u8>(c),
            },
        decreases full.len() - i, if stopped { 0int } else { 1int },
    {
        let c = s[i];
        let ghost cur = full.subrange(i as int, full.len() as int);
        assert(cur[0] == c);
        assert(cur.drop_first() =~= full.subrange(i + 1, full.len() as int));
        if c == 61 {
            stopped = true;
        } else if c == 32 || c == 10 || c == 13 || c == 9 {
            i = i + 1;
        } else {
            let v: u32 = if 65 <= c && c <= 90 {
                (c - 65) as u32
            } else if 97 <= c && c <= 122 {
                (c - 71) as u32
            } else if 48 <= c && c <= 57 {
                (c + 4) as u32
            } else if c == 43 {
                62
            } else if c == 47 {
                63
            } else {
                let msg = hex_byte_string(c);
                return Err(AppError::Other(concat2("bad base64 char ", msg.as_str())));
            };
            let a: u32 = acc * 64 + v;
            if bits + 6 >= 8 {
                let nb: u32 = bits + 6 - 8;
                let p: u32 = if nb == 0 { 1 } else if nb == 2 { 4 } else if nb == 4 { 16 } else { 64 };
                assert(p == pw2(nb as nat));
                assert(a / p < 256) by (nonlinear_arith)
                    requires
                        a < pw2(bits as nat) * 64,
                        p == pw2(nb as nat),
                        nb + 8 == bits + 6,
                        bits == 2 || bits == 4 || bits == 6,
                        pw2(2) == 4,
                        pw2(4) == 16,
                        pw2(6) == 64,
                        pw2(0) == 1,
                ;
                let byte = (a / p) as u8;
                let ghost before = out@;
                out.push(byte);
                proof {
                    match b64_decode_from(
                        full.subrange(i + 1, full.len() as int),
                        (a % p) as nat,
                        nb as nat,
                    ) {
                        Ok(rest) => {
                            assert(out@ + rest =~= before + (seq![byte] + rest));
                        },
                        Err(_) => {},
                    }
                }
                acc = a % p;
                bits = nb;
            } else {
                acc = a;
                bits = bits + 6;
            }
            i = i + 1;
        }
    }
    proof {
        let cur = full.subrange(i as int, full.len() as int);
        if !stopped {
            assert(cur =~= Seq::<u8>::empty());
        } else {
            assert(cur[0] == 61);
        }
        assert(b64_decode_from(cur, acc as nat, bits as nat) == Ok::<Seq<u8>, u8>(Seq::empty()));
        assert(out@ + Seq::<u8>::empty() =~= out@);
    }
    Ok(out)
}

// ---------------------------------------------------------------------------
// Credentials
// ---------------------------------------------------------------------------

/// The text of `std::string::FromUtf8Error` for these bytes.
pub uninterp spec fn utf8_error_text(bytes: Seq<u8>) -> Seq<char>;

/// `String::from_utf8`: succeeds exactly on valid UTF-8 and then holds the
/// decoded characters (the standard library documents both); the error's
/// text is named, not spelled out.
#[verifier::external_body]
fn string_from_utf8(bytes: Vec<u8>) -> (r: Result<String, String>)
    ensures
        r is Ok <==> valid_utf8(bytes@),
        r matches Ok(s) ==> s@ == decode_utf8(bytes@),
        r matches Err(m) ==> m@ == utf8_error_text(bytes@),
{
    String::from_utf8(bytes).map_err(|e| e.to_string())
}

/// What is stored for a credential: the empty credential stays empty;
/// ciphertext from the platform's protection service is stored as `gsy1:`
/// and its base64; without such ciphertext the credential's UTF-8 bytes are
/// stored as `gsy0:` and their base64.
pub open spec fn seal_spec(plain: Seq<char>, protected: Option<Seq<u8>>) -> Seq<char> {
    if plain.len() == 0 {
        Seq::empty()
    } else {
        match protected {
            Some(c) => "gsy1:"@ + b64_encode_spec(c),
            None => "gsy0:"@ + b64_encode_spec(encode_utf8(plain)),
        }
    }
}

/// The bytes of an optional buffer.
pub open spec fn bytes_opt(v: Option<Vec<u8>>) -> Option<Seq<u8>> {
    match v {
        Some(b) => Some(b@),
        None => None,
    }
}

/// Frames a credential for storage, given the ciphertext the platform's
/// protection service produced for it (`None` where there is no service or
/// it failed).
pub fn seal(plain: &str, protected: Option<Vec<u8>>) -> (r: String)
    ensures
        r@ == seal_spec(plain@, bytes_opt(protected)),
{
    if plain.unicode_len() == 0 {
        return String::new();
    }
    match protected {
        Some(c) => {
            let enc = base64_encode(c.as_slice());
            concat2("gsy1:", enc.as_str())
        },
        None => {
            let enc = base64_encode(plain.as_bytes());
            concat2("gsy0:", enc.as_str())
        },
    }
}

/// What `encrypt` stores for a credential.
pub open spec fn encrypt_spec(plain: Seq<char>) -> Seq<char> {
    seal_spec(plain, None)
}

/// Encodes a credential for storage where no protection service is at
/// hand.  Empty strings stay empty; anything else becomes `gsy0:` followed
/// by the base64 of its UTF-8 bytes.
pub fn encrypt(plain: &str) -> (r: Result<String, AppError>)
    ensures
        r matches Ok(s) && s@ == encrypt_spec(plain@),
{
    Ok(seal(plain, None))
}

/// What `decrypt` returns for a stored credential.
pub open spec fn decrypt_spec(stored: Seq<char>) -> Result<Seq<char>, Seq<char>> {
    if stored.len() == 0 {
        Ok(Seq::empty())
    } else if seq_starts_with(stored, "gsy1:"@) {
        Err("ciphertext present but DPAPI not available on this platform"@)
    } else if seq_starts_with(stored, "gsy0:"@) {
        match b64_decode_spec(stored.subrange(5, stored.len() as int)) {
            Err(c) => Err("bad base64 char "@ + hex_byte_alt(c)),
            Ok(bytes) => if valid_utf8(bytes) {
                Ok(decode_utf8(bytes))
            } else {
                Err("utf8: "@ + utf8_error_text(bytes))
            },
        }
    } else {
        Ok(stored)
    }
}

/// Decodes a stored credential where no protection service is at hand:
/// `gsy0:` payloads are base64-decoded, `gsy1:` ciphertext cannot be
/// opened, and anything unmarked is legacy plaintext returned as is.
pub fn decrypt(stored: &str) -> (r: Result<String, AppError>)
    ensures
        match decrypt_spec(stored@) {
            Ok(s) => r matches Ok(v) && v@ == s,
            Err(m) => r matches Err(AppError::Other(e)) && e@ == m,
        },
{
    proof {
        reveal_strlit("gsy1:");
        reveal_strlit("gsy0:");
    }
    if stored.unicode_len() == 0 {
        return Ok(String::new());
    }
    if starts_with(stored, "gsy1:") {
        return Err(AppError::Other(crate::text::owned("ciphertext present but DPAPI not available on this platform")));
    }
    if starts_with(stored, "gsy0:") {
        let x = chars_of(stored);
        let payload = crate::text::substring(&x, 5, x.len());
        let bytes = match base64_decode(payload.as_str()) {
            Ok(b) => b,
            Err(e) => return Err(e),
        };
        return match string_from_utf8(bytes) {
            Ok(s) => Ok(s),
            Err(m) => Err(AppError::Other(concat2("utf8: ", m.as_str()))),
        };
    }
    Ok(crate::text::owned(stored))
}

/// The ciphertext of a `gsy1:` credential, when its payload decodes.
pub open spec fn ciphertext_of(stored: Seq<char>) -> Option<Seq<u8>> {
    if seq_starts_with(stored, "gsy1:"@) {
        match b64_decode_spec(stored.subrange(5, stored.len() as int)) {
            Ok(c) => Some(c),
            Err(_) => None,
        }
    } else {
        None
    }
}

/// The ciphertext the protection service must open for a stored
/// credential, if it is `gsy1:` ciphertext whose payload decodes.
pub fn ciphertext(stored: &str) -> (r: Option<Vec<u8>>)
    ensures
        bytes_opt(r) == ciphertext_of(stored@),
{
    proof {
        reveal_strlit("gsy1:");
    }
    if !starts_with(stored, "gsy1:") {
        return None;
    }
    let x = chars_of(stored);
    let payload = crate::text::substring(&x, 5, x.len());
    match base64_decode(payload.as_str()) {
        Ok(b) => Some(b),
        Err(_) => None,
    }
}

/// The service's answer for a stored credential: the first entry of
/// `answers` for that stored text.
pub open spec fn answer_for(
    answers: Seq<(Seq<char>, Result<Seq<u8>, Seq<char>>)>,
    stored: Seq<char>,
) -> Option<Result<Seq<u8>, Seq<char>>>
    decreases answers.len(),
{
    if answers.len() == 0 {
        None
    } else if answers[0].0 == stored {
        Some(answers[0].1)
    } else {
        answer_for(answers.drop_first(), stored)
    }
}

/// The answers as plain values.
pub open spec fn answers_view(answers: Seq<(String, Result<Vec<u8>, String>)>) -> Seq<
    (Seq<char>, Result<Seq<u8>, Seq<char>>),
> {
    answers.map_values(
        |a: (String, Result<Vec<u8>, String>)|
            (
                a.0@,
                match a.1 {
                    Ok(b) => Ok(b@),
                    Err(m) => Err(m@),
                },
            ),
    )
}

/// What decrypting a stored credential gives where a protection service
/// is at hand (`service`), with its `answers` by stored text: `gsy1:`
/// ciphertext is opened by the service, and a payload that does not decode,
/// a failure of the service, and bytes that are not UTF-8 are errors; with no
/// answer the ciphertext cannot be opened.  Everything else is decoded as
/// without a service.
pub open spec fn decrypt_with_spec(
    stored: Seq<char>,
    service: bool,
    answers: Seq<(Seq<char>, Result<Seq<u8>, Seq<char>>)>,
) -> Result<Seq<char>, Seq<char>> {
    if service && seq_starts_with(stored, "gsy1:"@) {
        match b64_decode_spec(stored.subrange(5, stored.len() as int)) {
            Err(c) => Err("bad base64 char "@ + hex_byte_alt(c)),
            Ok(_) => match answer_for(answers, stored) {
                None => Err("ciphertext present but DPAPI not available on this platform"@),
                Some(Err(e)) => Err("DPAPI decrypt: "@ + e),
                Some(Ok(p)) => if valid_utf8(p) {
                    Ok(decode_utf8(p))
                } else {
                    Err("utf8 after dpapi: "@ + utf8_error_text(p))
                },
            },
        }
    } else {
        decrypt_spec(stored)
    }
}

proof fn lemma_answer_at(answers: Seq<(Seq<char>, Result<Seq<u8>, Seq<char>>)>, stored: Seq<char>, i: int)
    requires
        0 <= i <= answers.len(),
        forall|j: int| 0 <= j < i ==> (#[trigger] answers[j]).0 != stored,
    ensures
        i < answers.len() && answers[i].0 == stored ==> answer_for(answers, stored) == Some(
            answers[i].1,
        ),
        i == answers.len() ==> answer_for(answers, stored) is None,
    decreases i,
{
    if i > 0 {
        let t = answers.drop_first();
        assert forall|j: int| 0 <= j < i - 1 implies (#[trigger] t[j]).0 != stored by {
            assert(t[j] == answers[j + 1]);
        }
        assert(answers[0].0 != stored);
        lemma_answer_at(t, stored, i - 1);
    }
}

fn find_answer(answers: &Vec<(String, Result<Vec<u8>, String>)>, stored: &str) -> (r: Option<usize>)
    ensures
        match r {
            Some(i) => i < answers@.len() && answer_for(answers_view(answers@), stored@) == Some(
                answers_view(answers@)[i as int].1,
            ),
            None => answer_for(answers_view(answers@), stored@) is None,
        },
{
    let ghost v = answers_view(answers@);
    let mut i: usize = 0;
    while i < answers.len()
        invariant
            v == answers_view(answers@),
            i <= answers@.len(),
            forall|j: int| 0 <= j < i ==> (#[trigger] v[j]).0 != stored@,
        decreases answers@.len() - i,
    {
        if crate::text::str_eq(answers[i].0.as_str(), stored) {
            proof {
                lemma_answer_at(v, stored@, i as int);
            }
            return Some(i);
        }
        i = i + 1;
    }
    proof {
        lemma_answer_at(v, stored@, i as int);
    }
    None
}

fn copy_bytes(b: &Vec<u8>) -> (r: Vec<u8>)
    ensures
        r@ == b@,
{
    let mut out: Vec<u8> = Vec::new();
    let mut i: usize = 0;
    while i < b.len()
        invariant
            i <= b@.len(),
            out@ == b@.subrange(0, i as int),
        decreases b@.len() - i,
    {
        out.push(b[i]);
        assert(b@.subrange(0, i + 1) =~= b@.subrange(0, i as int).push(b@[i as int]));
        i = i + 1;
    }
    assert(b@.subrange(0, b@.len() as int) =~= b@);
    out
}

/// Decodes a stored credential where the platform may have a protection
/// service (`service`); `answers` holds, by stored text, what the service
/// returned for the ciphertexts it was asked to open.
pub fn decrypt_with(stored: &str, service: bool, answers: &Vec<(String, Result<Vec<u8>, String>)>) -> (r:
    Result<String, AppError>)
    ensures
        match decrypt_with_spec(stored@, service, answers_view(answers@)) {
            Ok(s) => r matches Ok(v) && v@ == s,
            Err(m) => r matches Err(AppError::Other(e)) && e@ == m,
        },
{
    proof {
        reveal_strlit("gsy1:");
    }
    if !service || !starts_with(stored, "gsy1:") {
        return decrypt(stored);
    }
    let x = chars_of(stored);
    let payload = crate::text::substring(&x, 5, x.len());
    match base64_decode(payload.as_str()) {
        Ok(_) => {},
        Err(e) => {
            return Err(e);
        },
    }
    match find_answer(answers, stored) {
        None => Err(
            AppError::Other(
                crate::text::owned("ciphertext present but DPAPI not available on this platform"),
            ),
        ),
        Some(i) => {
            let ghost a = answers_view(answers@)[i as int];
            match &answers[i].1 {
                Err(e) => Err(AppError::Other(concat2("DPAPI decrypt: ", e.as_str()))),
                Ok(p) => {
                    let bytes = copy_bytes(p);
                    match string_from_utf8(bytes) {
                        Ok(s) => Ok(s),
                        Err(m) => Err(AppError::Other(concat2("utf8 after dpapi: ", m.as_str()))),
                    }
                },
            }
        },
    }
}

/// Whether `stored` already carries one of the markers `encrypt` writes.
pub open spec fn is_protected_spec(stored: Seq<char>) -> bool {
    seq_starts_with(stored, "gsy1:"@) || seq_starts_with(stored, "gsy0:"@)
}

/// True when `stored` was produced by an encryption pass (either marker).
pub fn is_already_protected(stored: &str) -> (b: bool)
    ensures
        b == is_protected_spec(stored@),
{
    starts_with(stored, "gsy1:") || starts_with(stored, "gsy0:")
}

// ---------------------------------------------------------------------------
// Round trips
// ---------------------------------------------------------------------------

/// The bytes of a character sequence taken one per character (its UTF-8
/// encoding when every character is ASCII).
pub open spec fn ascii_bytes(cs: Seq<char>) -> Seq<u8> {
    Seq::new(cs.len(), |i: int| vstd::utf8::leading_byte_width_1(cs[i] as u32))
}

proof fn lemma_encode_ascii(cs: Seq<char>)
    requires
        forall|i: int| 0 <= i < cs.len() ==> (#[trigger] cs[i] as u32) < 128,
    ensures
        encode_utf8(cs) == ascii_bytes(cs),
    decreases cs.len(),
{
    if cs.len() > 0 {
        let t = cs.drop_first();
        assert forall|i: int| 0 <= i < t.len() implies (#[trigger] t[i] as u32) < 128 by {
            assert(t[i] == cs[i + 1]);
        }
        lemma_encode_ascii(t);
        assert((cs[0] as u32) < 128);
        assert(encode_utf8(cs) =~= ascii_bytes(cs));
    } else {
        assert(encode_utf8(cs) =~= ascii_bytes(cs));
    }
}

proof fn lemma_low_byte(u: u32)
    requires
        u < 128,
    ensures
        vstd::utf8::leading_byte_width_1(u) == u,
{
    assert(((u & 0x7F) as u8) as u32 == u) by (bit_vector)
        requires
            u < 128,
    ;
}

proof fn lemma_symbol(v: nat)
    requires
        v < 64,
    ensures
        (b64_char(v) as u32) < 128,
        b64_value(vstd::utf8::leading_byte_width_1(b64_char(v) as u32)) == Some(v),
        !b64_skip(vstd::utf8::leading_byte_width_1(b64_char(v) as u32)),
        vstd::utf8::leading_byte_width_1(b64_char(v) as u32) != 61,
        !crate::text::is_ws(b64_char(v)),
{
    lemma_low_byte(b64_char(v) as u32);
}

proof fn lemma_pad_byte()
    ensures
        vstd::utf8::leading_byte_width_1('=' as u32) == 61,
{
    lemma_low_byte('=' as u32);
}

proof fn lemma_group_arith(b0: u32, b1: u32, b2: u32)
    requires
        b0 < 256,
        b1 < 256,
        b2 < 256,
    ensures
        ({
            let n = b0 * 65536 + b1 * 256 + b2;
            let a1 = (n / 262144) * 64 + (n / 4096) % 64;
            let a2 = (a1 % 16) * 64 + (n / 64) % 64;
            let a3 = (a2 % 4) * 64 + n % 64;
            &&& n / 262144 < 64
            &&& a1 / 16 == b0
            &&& a2 / 4 == b1
            &&& a3 == b2
            &&& a1 < 4096
            &&& a2 < 1024
            &&& a3 < 256
        }),
{
    assert({
        let n = b0 * 65536 + b1 * 256 + b2;
        let a1 = (n / 262144) * 64 + (n / 4096) % 64;
        let a2 = (a1 % 16) * 64 + (n / 64) % 64;
        let a3 = (a2 % 4) * 64 + n % 64;
        &&& n / 262144 < 64
        &&& a1 / 16 == b0
        &&& a2 / 4 == b1
        &&& a3 == b2
        &&& a1 < 4096
        &&& a2 < 1024
        &&& a3 < 256
    }) by (bit_vector)
        requires
            b0 < 256,
            b1 < 256,
            b2 < 256,
    ;
}

proof fn lemma_b64_ascii(x: Seq<u8>)
    ensures
        forall|i: int| 0 <= i < b64_encode_spec(x).len() ==> {
            &&& (#[trigger] b64_encode_spec(x)[i] as u32) < 128
            &&& !crate::text::is_ws(b64_encode_spec(x)[i])
        },
    decreases x.len(),
{
    if x.len() > 0 {
        let b0 = x[0] as nat;
        let b1 = if x.len() > 1 { x[1] as nat } else { 0 };
        let b2 = if x.len() > 2 { x[2] as nat } else { 0 };
        lemma_group_arith(b0 as u32, b1 as u32, b2 as u32);
        let n = b0 * 65536 + b1 * 256 + b2;
        lemma_symbol(n / 262144);
        lemma_symbol((n / 4096) % 64);
        lemma_symbol((n / 64) % 64);
        lemma_symbol(n % 64);
        let g = b64_group(x);
        assert forall|i: int| 0 <= i < g.len() implies (#[trigger] g[i] as u32) < 128
            && !crate::text::is_ws(g[i]) by {
            assert(('=' as u32) == 61);
        }
        let e = b64_encode_spec(x);
        if x.len() > 3 {
            let r = x.subrange(3, x.len() as int);
            lemma_b64_ascii(r);
            assert forall|i: int| 0 <= i < e.len() implies (#[trigger] e[i] as u32) < 128
                && !crate::text::is_ws(e[i]) by {
                if i < 4 {
                    assert(e[i] == g[i]);
                } else {
                    assert(e[i] == b64_encode_spec(r)[i - 4]);
                }
            }
        }
    }
}

proof fn lemma_decode_group(x: Seq<u8>, tail: Seq<u8>)
    requires
        x.len() > 0,
        x.len() > 3 ==> tail == ascii_bytes(b64_encode_spec(x.subrange(3, x.len() as int))),
        x.len() <= 3 ==> tail.len() == 0,
        x.len() > 3 ==> b64_decode_from(tail, 0, 0) == Ok::<Seq<u8>, u8>(x.subrange(3, x.len() as int)),
    ensures
        b64_decode_from(ascii_bytes(b64_group(x)) + tail, 0, 0) == Ok::<Seq<u8>, u8>(x),
{
    let b0 = x[0];
    let b1: u8 = if x.len() > 1 { x[1] } else { 0 };
    let b2: u8 = if x.len() > 2 { x[2] } else { 0 };
    lemma_group_arith(b0 as u32, b1 as u32, b2 as u32);
    let n = b0 as nat * 65536 + b1 as nat * 256 + b2 as nat;
    let v0 = n / 262144;
    let v1 = (n / 4096) % 64;
    let v2 = (n / 64) % 64;
    let v3 = n % 64;
    lemma_symbol(v0);
    lemma_symbol(v1);
    lemma_symbol(v2);
    lemma_symbol(v3);
    let g = b64_group(x);
    let s0 = ascii_bytes(g) + tail;
    let s1 = s0.drop_first();
    let s2 = s1.drop_first();
    let s3 = s2.drop_first();
    let s4 = s3.drop_first();
    assert(s4 =~= tail);
    lemma_pad_byte();
    assert(s0[0] == vstd::utf8::leading_byte_width_1(b64_char(v0) as u32));
    assert(s1[0] == vstd::utf8::leading_byte_width_1(b64_char(v1) as u32));
    let a1 = v0 * 64 + v1;
    assert(a1 / 16 == b0 as nat && a1 < 4096);
    if x.len() == 1 {
        assert(s2[0] == 61);
        assert(b64_decode_from(s2, a1 % 16, 4) == Ok::<Seq<u8>, u8>(Seq::empty()));
        assert(b64_decode_from(s1, v0, 6) == Ok::<Seq<u8>, u8>(seq![b0]));
        assert(seq![b0] =~= x);
    } else {
        assert(s2[0] == vstd::utf8::leading_byte_width_1(b64_char(v2) as u32));
        let a2 = (a1 % 16) * 64 + v2;
        assert(a2 / 4 == b1 as nat && a2 < 1024);
        if x.len() == 2 {
            assert(s3[0] == 61);
            assert(b64_decode_from(s3, a2 % 4, 2) == Ok::<Seq<u8>, u8>(Seq::empty()));
            assert(b64_decode_from(s2, a1 % 16, 4) == Ok::<Seq<u8>, u8>(seq![b1]));
            assert(b64_decode_from(s1, v0, 6) == Ok::<Seq<u8>, u8>(seq![b0] + seq![b1]));
            assert(seq![b0] + seq![b1] =~= x);
        } else {
            assert(s3[0] == vstd::utf8::leading_byte_width_1(b64_char(v3) as u32));
            let a3 = (a2 % 4) * 64 + v3;
            assert(a3 == b2 as nat);
            let rest = x.subrange(3, x.len() as int);
            if x.len() == 3 {
                assert(tail =~= Seq::<u8>::empty());
                assert(b64_decode_from(s4, 0, 0) == Ok::<Seq<u8>, u8>(Seq::empty()));
                assert(rest =~= Seq::<u8>::empty());
            }
            assert(b64_decode_from(s4, 0, 0) == Ok::<Seq<u8>, u8>(rest));
            assert(b64_decode_from(s3, a2 % 4, 2) == Ok::<Seq<u8>, u8>(seq![b2] + rest));
            assert(b64_decode_from(s2, a1 % 16, 4) == Ok::<Seq<u8>, u8>(seq![b1] + (seq![b2] + rest)));
            assert(b64_decode_from(s1, v0, 6) == Ok::<Seq<u8>, u8>(seq![b0] + (seq![b1] + (seq![b2] + rest))));
            assert(seq![b0] + (seq![b1] + (seq![b2] + rest)) =~= x);
        }
    }
}

proof fn lemma_decode_encoded(x: Seq<u8>)
    ensures
        b64_decode_from(ascii_bytes(b64_encode_spec(x)), 0, 0) == Ok::<Seq<u8>, u8>(x),
    decreases x.len(),
{
    if x.len() == 0 {
        assert(ascii_bytes(b64_encode_spec(x)) =~= Seq::<u8>::empty());
        assert(x =~= Seq::<u8>::empty());
    } else if x.len() <= 3 {
        lemma_decode_group(x, Seq::empty());
        assert(ascii_bytes(b64_group(x)) + Seq::<u8>::empty() =~= ascii_bytes(b64_encode_spec(x)));
    } else {
        let rest = x.subrange(3, x.len() as int);
        lemma_decode_encoded(rest);
        let tail = ascii_bytes(b64_encode_spec(rest));
        lemma_decode_group(x, tail);
        assert(ascii_bytes(b64_group(x)) + tail =~= ascii_bytes(b64_encode_spec(x)));
    }
}

/// Decoding what `base64_encode` produced gives the original bytes back.
pub proof fn law_base64_round_trip(x: Seq<u8>)
    ensures
        b64_decode_spec(b64_encode_spec(x)) == Ok::<Seq<u8>, u8>(x),
{
    let cs = b64_encode_spec(x);
    lemma_b64_ascii(x);
    let ws = crate::text::ws_pred();
    if cs.len() > 0 {
        assert(!ws(cs[0]));
        assert(!ws(cs[cs.len() - 1]));
    }
    crate::text::lemma_lead_count_char(cs, ws, 0);
    crate::text::lemma_trail_count_char(cs, ws, 0);
    assert(trim_spec(cs) =~= cs);
    lemma_encode_ascii(cs);
    lemma_decode_encoded(x);
}

proof fn lemma_decode_from_refuses(s: Seq<u8>, acc: nat, bits: nat, i: int)
    requires
        0 <= i < s.len(),
        b64_value(s[i]) is None,
        !b64_skip(s[i]),
        s[i] != 61,
        forall|j: int| 0 <= j < i ==> s[j] != 61,
    ensures
        b64_decode_from(s, acc, bits) is Err,
    decreases s.len(),
{
    if i > 0 {
        let t = s.drop_first();
        assert forall|j: int| 0 <= j < i - 1 implies t[j] != 61 by {
            assert(t[j] == s[j + 1]);
        }
        assert(t[i - 1] == s[i]);
        assert(s[0] != 61);
        if !b64_skip(s[0]) {
            match b64_value(s[0]) {
                None => {},
                Some(v) => {
                    let a = acc * 64 + v;
                    if bits + 6 >= 8 {
                        let nb = (bits + 6 - 8) as nat;
                        lemma_decode_from_refuses(t, a % pw2(nb), nb, i - 1);
                    } else {
                        lemma_decode_from_refuses(t, a, bits + 6, i - 1);
                    }
                },
            }
        } else {
            lemma_decode_from_refuses(t, acc, bits, i - 1);
        }
    }
}

/// Decoding refuses a foreign byte: when the bytes of the trimmed input
/// hold, before their first `=`, one that is neither a base64 symbol
/// (`A`-`Z`, `a`-`z`, `0`-`9`, `+`, `/`) nor skipped whitespace (space,
/// newline, carriage return, tab), decoding fails.
pub proof fn law_base64_refuses_foreign_byte(input: Seq<char>, i: int)
    requires
        0 <= i < encode_utf8(trim_spec(input)).len(),
        b64_value(encode_utf8(trim_spec(input))[i]) is None,
        !b64_skip(encode_utf8(trim_spec(input))[i]),
        encode_utf8(trim_spec(input))[i] != 61,
        forall|j: int| 0 <= j < i ==> #[trigger] encode_utf8(trim_spec(input))[j] != 61,
    ensures
        b64_decode_spec(input) is Err,
{
    lemma_decode_from_refuses(encode_utf8(trim_spec(input)), 0, 0, i);
}

/// Decrypting what `encrypt` stored gives the credential back, for every
/// credential (the empty one included).
pub proof fn law_decrypt_inverts_encrypt(plain: Seq<char>)
    ensures
        decrypt_spec(encrypt_spec(plain)) == Ok::<Seq<char>, Seq<char>>(plain),
{
    reveal_strlit("gsy0:");
    reveal_strlit("gsy1:");
    if plain.len() > 0 {
        let bytes = encode_utf8(plain);
        let stored = encrypt_spec(plain);
        law_base64_round_trip(bytes);
        assert(stored.subrange(5, stored.len() as int) =~= b64_encode_spec(bytes));
        assert(stored.subrange(0, 5) =~= "gsy0:"@);
        assert(stored.subrange(0, 5) != "gsy1:"@) by {
            assert(stored.subrange(0, 5)[3] != "gsy1:"@[3]);
        }
        vstd::utf8::encode_utf8_valid_utf8(plain);
        vstd::utf8::encode_utf8_decode_utf8(plain);
    } else {
        assert(encrypt_spec(plain) =~= Seq::<char>::empty());
        assert(plain =~= Seq::<char>::empty());
    }
}

/// Credentials written by `encrypt` are recognised as protected, so a
/// migration pass never encrypts them twice.
pub proof fn law_encrypted_is_protected(plain: Seq<char>)
    requires
        plain.len() > 0,
    ensures
        is_protected_spec(encrypt_spec(plain)),
{
    reveal_strlit("gsy0:");
    let stored = encrypt_spec(plain);
    assert(stored.subrange(0, 5) =~= "gsy0:"@);
}

/// Whatever the protection service did, a stored non-empty credential
/// carries a marker, so a second pass never seals it again.
pub proof fn law_sealed_is_protected(plain: Seq<char>, protected: Option<Seq<u8>>)
    requires
        plain.len() > 0,
    ensures
        is_protected_spec(seal_spec(plain, protected)),
{
    reveal_strlit("gsy0:");
    reveal_strlit("gsy1:");
    let stored = seal_spec(plain, protected);
    match protected {
        Some(c) => {
            assert(stored.subrange(0, 5) =~= "gsy1:"@);
        },
        None => {
            assert(stored.subrange(0, 5) =~= "gsy0:"@);
        },
    }
}

/// Ciphertext sealed for storage is handed back to the protection service
/// unchanged, and when the service opens it to the credential's bytes,
/// decrypting gives the credential back.
pub proof fn law_open_inverts_seal(
    plain: Seq<char>,
    c: Seq<u8>,
    answers: Seq<(Seq<char>, Result<Seq<u8>, Seq<char>>)>,
)
    requires
        plain.len() > 0,
        answer_for(answers, seal_spec(plain, Some(c))) == Some(
            Ok::<Seq<u8>, Seq<char>>(encode_utf8(plain)),
        ),
    ensures
        ciphertext_of(seal_spec(plain, Some(c))) == Some(c),
        decrypt_with_spec(seal_spec(plain, Some(c)), true, answers) == Ok::<
            Seq<char>,
            Seq<char>,
        >(plain),
{
    reveal_strlit("gsy1:");
    let stored = seal_spec(plain, Some(c));
    law_base64_round_trip(c);
    assert(stored.subrange(5, stored.len() as int) =~= b64_encode_spec(c));
    assert(stored.subrange(0, 5) =~= "gsy1:"@);
    vstd::utf8::encode_utf8_valid_utf8(plain);
    vstd::utf8::encode_utf8_decode_utf8(plain);
}

} // verus!
