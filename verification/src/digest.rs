//! Content hashing (SHA-256 from `sha2`, lowercase hex from `hex`) and the
//! byte encodings fed into it.

use vstd::prelude::*;

verus! {

/// The SHA-256 digest of `data`, as computed by `sha2::Sha256`.
pub uninterp spec fn sha256_of(data: Seq<u8>) -> Seq<u8>;

/// `sha2::Sha256::digest`: the 32-byte SHA-256 digest of `data`.  The
/// contract names the digest and states its length; nothing more about the
/// hash function is claimed.
#[verifier::external_body]
pub(crate) fn sha256(data: &[u8]) -> (r: Vec<u8>)
    ensures
        r@ == sha256_of(data@),
        r@.len() == 32,
{
    <sha2::Sha256 as sha2::Digest>::digest(data).to_vec()
}

pub open spec fn hex_digit(n: u8) -> char
    recommends
        n < 16,
{
    if n < 10 {
        ((n + 48) as u8) as char
    } else {
        ((n + 87) as u8) as char
    }
}

/// Lowercase hex: two characters per byte, high nibble first.
pub open spec fn hex_lower(data: Seq<u8>) -> Seq<char>
    decreases data.len(),
{
    if data.len() == 0 {
        Seq::empty()
    } else {
        hex_lower(data.drop_last()).push(hex_digit(data.last() / 16)).push(
            hex_digit(data.last() % 16),
        )
    }
}

/// `hex::encode`: lowercase hexadecimal text of `data`, two characters per
/// byte, high nibble first (the crate documents lowercase output).
#[verifier::external_body]
pub(crate) fn hex_encode(data: &[u8]) -> (s: String)
    ensures
        s@ == hex_lower(data@),
{
    hex::encode(data)
}

/// Little-endian bytes of `n` taken modulo 256^k.
pub open spec fn le_bytes(n: nat, k: nat) -> Seq<u8>
    decreases k,
{
    if k == 0 {
        Seq::empty()
    } else {
        seq![(n % 256) as u8] + le_bytes(n / 256, (k - 1) as nat)
    }
}

/// `u64::to_le_bytes`.
pub fn u64_le_bytes(x: u64) -> (r: Vec<u8>)
    ensures
        r@ == le_bytes(x as nat, 8),
{
    let mut out: Vec<u8> = Vec::new();
    let mut n = x;
    let mut k: usize = 0;
    while k < 8
        invariant
            k <= 8,
            out@ + le_bytes(n as nat, (8 - k) as nat) == le_bytes(x as nat, 8),
        decreases 8 - k,
    {
        let b = (n % 256) as u8;
        let ghost rest = le_bytes((n / 256) as nat, (8 - k - 1) as nat);
        assert(le_bytes(n as nat, (8 - k) as nat) == seq![b] + rest);
        out.push(b);
        assert(out@ + rest =~= le_bytes(x as nat, 8));
        n = n / 256;
        k = k + 1;
    }
    assert(le_bytes(n as nat, 0) =~= Seq::<u8>::empty());
    assert(out@ =~= le_bytes(x as nat, 8));
    out
}

/// `i64::to_le_bytes`: the two's-complement bytes.
pub fn i64_le_bytes(x: i64) -> (r: Vec<u8>)
    ensures
        r@ == le_bytes((x as u64) as nat, 8),
{
    u64_le_bytes(x as u64)
}

/// Concatenation of two byte vectors.
pub fn join_bytes(a: &Vec<u8>, b: &Vec<u8>) -> (r: Vec<u8>)
    ensures
        r@ == a@ + b@,
{
    let mut out: Vec<u8> = Vec::new();
    let mut i: usize = 0;
    while i < a.len()
        invariant
            i <= a@.len(),
            out@ == a@.subrange(0, i as int),
        decreases a@.len() - i,
    {
        out.push(a[i]);
        assert(out@ =~= a@.subrange(0, i + 1));
        i = i + 1;
    }
    let mut j: usize = 0;
    while j < b.len()
        invariant
            j <= b@.len(),
            i == a@.len(),
            out@ == a@ + b@.subrange(0, j as int),
        decreases b@.len() - j,
    {
        out.push(b[j]);
        assert(out@ =~= a@ + b@.subrange(0, j + 1));
        j = j + 1;
    }
    assert(out@ =~= a@ + b@);
    out
}

/// The first `n` bytes of `v`.
pub fn take_bytes(v: &Vec<u8>, n: usize) -> (r: Vec<u8>)
    requires
        n <= v@.len(),
    ensures
        r@ == v@.subrange(0, n as int),
{
    let mut out: Vec<u8> = Vec::new();
    let mut i: usize = 0;
    while i < n
        invariant
            i <= n,
            n <= v@.len(),
            out@ == v@.subrange(0, i as int),
        decreases n - i,
    {
        out.push(v[i]);
        assert(out@ =~= v@.subrange(0, i + 1));
        i = i + 1;
    }
    out
}

/// Lowercase hex SHA-256 of `data`.
pub fn sha256_hex(data: &[u8]) -> (s: String)
    ensures
        s@ == hex_lower(sha256_of(data@)),
{
    let d = sha256(data);
    hex_encode(d.as_slice())
}

/// Stand-in hash for files too large to read: SHA-256 over the size and
/// modification time, each as 8 little-endian bytes.
pub fn fallback_hash(size: u64, modified_ms: i64) -> (s: String)
    ensures
        s@ == hex_lower(
            sha256_of(le_bytes(size as nat, 8) + le_bytes((modified_ms as u64) as nat, 8)),
        ),
{
    let a = u64_le_bytes(size);
    let b = i64_le_bytes(modified_ms);
    let data = join_bytes(&a, &b);
    sha256_hex(data.as_slice())
}

} // verus!
