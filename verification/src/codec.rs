//! The fixed compact binary codec used for programs, compiled programs and
//! the context bundle: little-endian fixed-width integers, length-prefixed
//! byte strings, and length-prefixed sequences. Every decoder is written
//! against a specification function of the bytes alone, and every encoder
//! is proved to produce exactly the bytes that the decoder accepts.

use vstd::prelude::*;

verus! {

// ---------------------------------------------------------------------
// u8
// ---------------------------------------------------------------------

/// The encoding of a single byte: itself.
pub open spec fn spec_enc_u8(v: u8) -> Seq<u8> {
    seq![v]
}

/// Reads one byte at `pos`.
pub open spec fn spec_dec_u8(s: Seq<u8>, pos: int) -> Option<(u8, int)> {
    if 0 <= pos && pos + 1 <= s.len() {
        Some((s[pos], pos + 1))
    } else {
        None
    }
}

/// Appends the encoding of `v` to `out`.
pub fn enc_u8(v: u8, out: &mut Vec<u8>)
    ensures
        final(out)@ == old(out)@ + spec_enc_u8(v),
{
    out.push(v);
    assert(out@ =~= old(out)@ + spec_enc_u8(v));
}

/// Reads one byte at `pos`, exactly as [`spec_dec_u8`] describes.
pub fn dec_u8(s: &[u8], pos: usize) -> (r: Option<(u8, usize)>)
    ensures
        match r {
            Some((v, p)) => spec_dec_u8(s@, pos as int) == Some((v, p as int)),
            None => spec_dec_u8(s@, pos as int) is None,
        },
{
    if pos < s.len() {
        Some((s[pos], pos + 1))
    } else {
        None
    }
}

/// A byte decodes back to itself wherever its encoding is embedded.
pub proof fn lemma_rt_u8(v: u8, pre: Seq<u8>, suf: Seq<u8>)
    ensures
        spec_dec_u8(pre + spec_enc_u8(v) + suf, pre.len() as int)
            == Some((v, pre.len() + 1 as int)),
{
}

// ---------------------------------------------------------------------
// u32, little endian, four bytes
// ---------------------------------------------------------------------

/// The four little-endian bytes of `v`.
#[verifier::opaque]
pub open spec fn spec_enc_u32(v: u32) -> Seq<u8> {
    seq![
        (v & 0xff) as u8,
        ((v >> 8) & 0xff) as u8,
        ((v >> 16) & 0xff) as u8,
        ((v >> 24) & 0xff) as u8,
    ]
}

/// The value of the four little-endian bytes starting at `pos`.
#[verifier::opaque]
pub open spec fn spec_word32_at(s: Seq<u8>, pos: int) -> u32 {
    (s[pos] as u32)
    | (s[pos + 1] as u32) << 8
    | (s[pos + 2] as u32) << 16
    | (s[pos + 3] as u32) << 24
}

/// Reads a little-endian `u32` at `pos`.
pub open spec fn spec_dec_u32(s: Seq<u8>, pos: int) -> Option<(u32, int)> {
    if 0 <= pos && pos + 4 <= s.len() {
        Some((spec_word32_at(s, pos), pos + 4))
    } else {
        None
    }
}

/// Appends the encoding of `v` to `out`.
pub fn enc_u32(v: u32, out: &mut Vec<u8>)
    ensures
        final(out)@ == old(out)@ + spec_enc_u32(v),
{
    out.push((v & 0xff) as u8);
    out.push(((v >> 8) & 0xff) as u8);
    out.push(((v >> 16) & 0xff) as u8);
    out.push(((v >> 24) & 0xff) as u8);
    proof {
        reveal(spec_enc_u32);
    }
    assert(out@ =~= old(out)@ + spec_enc_u32(v));
}

/// Reads a little-endian `u32` at `pos`, exactly as [`spec_dec_u32`]
/// describes.
pub fn dec_u32(s: &[u8], pos: usize) -> (r: Option<(u32, usize)>)
    ensures
        match r {
            Some((v, p)) => spec_dec_u32(s@, pos as int) == Some((v, p as int)),
            None => spec_dec_u32(s@, pos as int) is None,
        },
{
    if pos >= s.len() || s.len() - pos < 4 {
        return None;
    }
    let v = (s[pos] as u32)
        | (s[pos + 1] as u32) << 8
        | (s[pos + 2] as u32) << 16
        | (s[pos + 3] as u32) << 24;
    proof {
        reveal(spec_word32_at);
    }
    Some((v, pos + 4))
}

/// A `u32` decodes back to itself wherever its encoding is embedded.
pub proof fn lemma_rt_u32(v: u32, pre: Seq<u8>, suf: Seq<u8>)
    ensures
        spec_dec_u32(pre + spec_enc_u32(v) + suf, pre.len() as int)
            == Some((v, pre.len() + 4 as int)),
{
    reveal(spec_enc_u32);
    reveal(spec_word32_at);
    let s = pre + spec_enc_u32(v) + suf;
    let pos = pre.len() as int;
    assert(s[pos] == (v & 0xff) as u8);
    assert(s[pos + 1] == ((v >> 8) & 0xff) as u8);
    assert(s[pos + 2] == ((v >> 16) & 0xff) as u8);
    assert(s[pos + 3] == ((v >> 24) & 0xff) as u8);
    assert(((v & 0xff) as u8 as u32)
        | (((v >> 8) & 0xff) as u8 as u32) << 8
        | (((v >> 16) & 0xff) as u8 as u32) << 16
        | (((v >> 24) & 0xff) as u8 as u32) << 24
        == v) by (bit_vector);
}

// ---------------------------------------------------------------------
// u64, little endian, eight bytes
// ---------------------------------------------------------------------

/// The eight little-endian bytes of `v`.
#[verifier::opaque]
pub open spec fn spec_enc_u64(v: u64) -> Seq<u8> {
    seq![
        (v & 0xff) as u8,
        ((v >> 8) & 0xff) as u8,
        ((v >> 16) & 0xff) as u8,
        ((v >> 24) & 0xff) as u8,
        ((v >> 32) & 0xff) as u8,
        ((v >> 40) & 0xff) as u8,
        ((v >> 48) & 0xff) as u8,
        ((v >> 56) & 0xff) as u8,
    ]
}

/// The value of the eight little-endian bytes starting at `pos`.
#[verifier::opaque]
pub open spec fn spec_word64_at(s: Seq<u8>, pos: int) -> u64 {
    (s[pos] as u64)
    | (s[pos + 1] as u64) << 8
    | (s[pos + 2] as u64) << 16
    | (s[pos + 3] as u64) << 24
    | (s[pos + 4] as u64) << 32
    | (s[pos + 5] as u64) << 40
    | (s[pos + 6] as u64) << 48
    | (s[pos + 7] as u64) << 56
}

/// Reads a little-endian `u64` at `pos`.
pub open spec fn spec_dec_u64(s: Seq<u8>, pos: int) -> Option<(u64, int)> {
    if 0 <= pos && pos + 8 <= s.len() {
        Some((spec_word64_at(s, pos), pos + 8))
    } else {
        None
    }
}

/// Appends the encoding of `v` to `out`.
pub fn enc_u64(v: u64, out: &mut Vec<u8>)
    ensures
        final(out)@ == old(out)@ + spec_enc_u64(v),
{
    out.push((v & 0xff) as u8);
    out.push(((v >> 8) & 0xff) as u8);
    out.push(((v >> 16) & 0xff) as u8);
    out.push(((v >> 24) & 0xff) as u8);
    out.push(((v >> 32) & 0xff) as u8);
    out.push(((v >> 40) & 0xff) as u8);
    out.push(((v >> 48) & 0xff) as u8);
    out.push(((v >> 56) & 0xff) as u8);
    proof {
        reveal(spec_enc_u64);
    }
    assert(out@ =~= old(out)@ + spec_enc_u64(v));
}

/// Reads a little-endian `u64` at `pos`, exactly as [`spec_dec_u64`]
/// describes.
pub fn dec_u64(s: &[u8], pos: usize) -> (r: Option<(u64, usize)>)
    ensures
        match r {
            Some((v, p)) => spec_dec_u64(s@, pos as int) == Some((v, p as int)),
            None => spec_dec_u64(s@, pos as int) is None,
        },
{
    if pos >= s.len() || s.len() - pos < 8 {
        return None;
    }
    let v = (s[pos] as u64)
        | (s[pos + 1] as u64) << 8
        | (s[pos + 2] as u64) << 16
        | (s[pos + 3] as u64) << 24
        | (s[pos + 4] as u64) << 32
        | (s[pos + 5] as u64) << 40
        | (s[pos + 6] as u64) << 48
        | (s[pos + 7] as u64) << 56;
    proof {
        reveal(spec_word64_at);
    }
    Some((v, pos + 8))
}

/// A `u64` decodes back to itself wherever its encoding is embedded.
pub proof fn lemma_rt_u64(v: u64, pre: Seq<u8>, suf: Seq<u8>)
    ensures
        spec_dec_u64(pre + spec_enc_u64(v) + suf, pre.len() as int)
            == Some((v, pre.len() + 8 as int)),
{
    reveal(spec_enc_u64);
    reveal(spec_word64_at);
    let s = pre + spec_enc_u64(v) + suf;
    let pos = pre.len() as int;
    assert(s[pos] == (v & 0xff) as u8);
    assert(s[pos + 1] == ((v >> 8) & 0xff) as u8);
    assert(s[pos + 2] == ((v >> 16) & 0xff) as u8);
    assert(s[pos + 3] == ((v >> 24) & 0xff) as u8);
    assert(s[pos + 4] == ((v >> 32) & 0xff) as u8);
    assert(s[pos + 5] == ((v >> 40) & 0xff) as u8);
    assert(s[pos + 6] == ((v >> 48) & 0xff) as u8);
    assert(s[pos + 7] == ((v >> 56) & 0xff) as u8);
    assert(((v & 0xff) as u8 as u64)
        | (((v >> 8) & 0xff) as u8 as u64) << 8
        | (((v >> 16) & 0xff) as u8 as u64) << 16
        | (((v >> 24) & 0xff) as u8 as u64) << 24
        | (((v >> 32) & 0xff) as u8 as u64) << 32
        | (((v >> 40) & 0xff) as u8 as u64) << 40
        | (((v >> 48) & 0xff) as u8 as u64) << 48
        | (((v >> 56) & 0xff) as u8 as u64) << 56
        == v) by (bit_vector);
}

// ---------------------------------------------------------------------
// usize, carried as u64 on the wire
// ---------------------------------------------------------------------

/// Reads a `u64` at `pos` and accepts it only if it fits the platform's
/// `usize`.
pub open spec fn spec_dec_usize(s: Seq<u8>, pos: int) -> Option<(usize, int)> {
    match spec_dec_u64(s, pos) {
        Some((v, p)) => if v <= usize::MAX as u64 {
            Some((v as usize, p))
        } else {
            None
        },
        None => None,
    }
}

/// The encoding of a `usize`: its value as a `u64`.
pub open spec fn spec_enc_usize(v: usize) -> Seq<u8> {
    spec_enc_u64(v as u64)
}

/// Appends the encoding of `v` to `out`.
pub fn enc_usize(v: usize, out: &mut Vec<u8>)
    ensures
        final(out)@ == old(out)@ + spec_enc_usize(v),
{
    enc_u64(v as u64, out);
}

/// Reads a `usize` at `pos`, exactly as [`spec_dec_usize`] describes.
pub fn dec_usize(s: &[u8], pos: usize) -> (r: Option<(usize, usize)>)
    ensures
        match r {
            Some((v, p)) => spec_dec_usize(s@, pos as int) == Some((v, p as int)),
            None => spec_dec_usize(s@, pos as int) is None,
        },
{
    match dec_u64(s, pos) {
        Some((v, p)) => {
            if v <= usize::MAX as u64 {
                Some((v as usize, p))
            } else {
                None
            }
        },
        None => None,
    }
}

/// A `usize` decodes back to itself wherever its encoding is embedded.
pub proof fn lemma_rt_usize(v: usize, pre: Seq<u8>, suf: Seq<u8>)
    ensures
        spec_dec_usize(pre + spec_enc_usize(v) + suf, pre.len() as int)
            == Some((v, pre.len() + 8 as int)),
{
    lemma_rt_u64(v as u64, pre, suf);
}

// ---------------------------------------------------------------------
// byte strings, length prefixed
// ---------------------------------------------------------------------

/// The encoding of a byte string: its length as a `u64`, then the bytes.
pub open spec fn spec_enc_bytes(b: Seq<u8>) -> Seq<u8> {
    spec_enc_u64(b.len() as u64) + b
}

/// Reads a length-prefixed byte string at `pos`.
pub open spec fn spec_dec_bytes(s: Seq<u8>, pos: int) -> Option<(Seq<u8>, int)> {
    match spec_dec_u64(s, pos) {
        Some((n, p)) => if p + n <= s.len() {
            Some((s.subrange(p, p + n), p + n))
        } else {
            None
        },
        None => None,
    }
}

/// Appends the encoding of `b` to `out`.
pub fn enc_bytes(b: &Vec<u8>, out: &mut Vec<u8>)
    ensures
        final(out)@ == old(out)@ + spec_enc_bytes(b@),
{
    enc_u64(b.len() as u64, out);
    let ghost mid = out@;
    let mut i: usize = 0;
    while i < b.len()
        invariant
            i <= b@.len(),
            out@ == mid + b@.subrange(0, i as int),
        decreases b@.len() - i,
    {
        out.push(b[i]);
        assert(out@ =~= mid + b@.subrange(0, i + 1 as int));
        i += 1;
    }
    assert(b@.subrange(0, b@.len() as int) =~= b@);
    assert(out@ =~= old(out)@ + spec_enc_bytes(b@));
}

/// Reads a length-prefixed byte string at `pos`, exactly as
/// [`spec_dec_bytes`] describes.
pub fn dec_bytes(s: &[u8], pos: usize) -> (r: Option<(Vec<u8>, usize)>)
    ensures
        match r {
            Some((v, p)) => spec_dec_bytes(s@, pos as int) == Some((v@, p as int)),
            None => spec_dec_bytes(s@, pos as int) is None,
        },
{
    let (n, p) = match dec_u64(s, pos) {
        Some(x) => x,
        None => {
            return None;
        },
    };
    if n > (s.len() - p) as u64 {
        return None;
    }
    let count = n as usize;
    let mut out: Vec<u8> = Vec::new();
    let mut i: usize = 0;
    while i < count
        invariant
            i <= count,
            p + count <= s@.len(),
            s@.len() <= usize::MAX,
            out@ == s@.subrange(p as int, p + i as int),
        decreases count - i,
    {
        out.push(s[p + i]);
        assert(out@ =~= s@.subrange(p as int, p + (i + 1) as int));
        i += 1;
    }
    Some((out, p + count))
}

/// A byte string decodes back to itself wherever its encoding is embedded.
pub proof fn lemma_rt_bytes(b: Seq<u8>, pre: Seq<u8>, suf: Seq<u8>)
    requires
        b.len() <= u64::MAX,
    ensures
        spec_dec_bytes(pre + spec_enc_bytes(b) + suf, pre.len() as int)
            == Some((b, pre.len() + 8 + b.len() as int)),
{
    lemma_enc_u64_len(b.len() as u64);
    let s = pre + spec_enc_bytes(b) + suf;
    assert(s =~= pre + spec_enc_u64(b.len() as u64) + (b + suf));
    lemma_rt_u64(b.len() as u64, pre, b + suf);
    let p = pre.len() + 8 as int;
    assert(s.subrange(p, p + b.len() as int) =~= b);
}


/// The encoding of a `u32` is always four bytes long.
pub broadcast proof fn lemma_enc_u32_len(v: u32)
    ensures
        (#[trigger] spec_enc_u32(v)).len() == 4,
{
    reveal(spec_enc_u32);
}

/// The encoding of a `u64` is always eight bytes long.
pub broadcast proof fn lemma_enc_u64_len(v: u64)
    ensures
        (#[trigger] spec_enc_u64(v)).len() == 8,
{
    reveal(spec_enc_u64);
}

} // verus!
