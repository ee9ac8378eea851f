//! The wire layout of the library's structures: each structure is the
//! concatenation of its fields' encodings, each sequence is a count
//! followed by the items. Every decoder mirrors a specification function
//! of the bytes alone, and round-trip lemmas prove that decoding an
//! embedded encoding yields the encoded value back.

use vstd::prelude::*;

use crate::codec::{spec_enc_u32, spec_dec_u32, lemma_rt_u32,
    spec_enc_u64, spec_dec_u64, enc_u64, dec_u64, lemma_rt_u64,
    spec_enc_bytes, spec_dec_bytes, enc_bytes, dec_bytes, lemma_rt_bytes};

verus! {

broadcast use crate::codec::lemma_enc_u32_len, crate::codec::lemma_enc_u64_len;

// ---------------------------------------------------------------------
// sequences of byte strings
// ---------------------------------------------------------------------

/// The concatenated encodings of a run of byte strings.
#[verifier::opaque]
pub open spec fn spec_enc_bytes_seq(ws: Seq<Seq<u8>>) -> Seq<u8>
    decreases ws.len(),
{
    if ws.len() == 0 {
        seq![]
    } else {
        spec_enc_bytes(ws[0]) + spec_enc_bytes_seq(ws.skip(1))
    }
}

/// Reads `count` byte strings one after another, starting at `pos`.
#[verifier::opaque]
pub open spec fn spec_dec_bytes_seq(s: Seq<u8>, pos: int, count: int)
    -> Option<(Seq<Seq<u8>>, int)>
    decreases count,
{
    if count <= 0 {
        Some((seq![], pos))
    } else {
        match spec_dec_bytes(s, pos) {
            Some((b, p)) => match spec_dec_bytes_seq(s, p, count - 1) {
                Some((rest, q)) => Some((seq![b] + rest, q)),
                None => None,
            },
            None => None,
        }
    }
}

/// Every run of byte strings encodes to at least one byte per item.
pub proof fn lemma_enc_bytes_seq_len(ws: Seq<Seq<u8>>)
    ensures
        spec_enc_bytes_seq(ws).len() >= ws.len(),
    decreases ws.len(),
{
    reveal_with_fuel(spec_enc_bytes_seq, 2);
    if ws.len() > 0 {
        lemma_enc_bytes_seq_len(ws.skip(1));
    }
}

/// The encoding of a list of byte strings: the count, then the items.
pub open spec fn spec_enc_bytes_vec(ws: Seq<Seq<u8>>) -> Seq<u8> {
    spec_enc_u64(ws.len() as u64) + spec_enc_bytes_seq(ws)
}

/// Reads a counted list of byte strings at `pos`.
pub open spec fn spec_dec_bytes_vec(s: Seq<u8>, pos: int) -> Option<(Seq<Seq<u8>>, int)> {
    match spec_dec_u64(s, pos) {
        Some((n, p)) => if n <= s.len() - p {
            spec_dec_bytes_seq(s, p, n as int)
        } else {
            None
        },
        None => None,
    }
}

/// Appends the encoding of `ws` to `out`.
pub fn enc_bytes_vec(ws: &Vec<Vec<u8>>, out: &mut Vec<u8>)
    ensures
        final(out)@ == old(out)@ + spec_enc_bytes_vec(ws@.map_values(|w: Vec<u8>| w@)),
{
    let ghost wsv = ws@.map_values(|w: Vec<u8>| w@);
    enc_u64(ws.len() as u64, out);
    let ghost mid = out@;
    let mut i: usize = 0;
    assert(wsv.skip(0) =~= wsv);
    while i < ws.len()
        invariant
            i <= ws@.len(),
            wsv == ws@.map_values(|w: Vec<u8>| w@),
            mid + spec_enc_bytes_seq(wsv) == out@ + spec_enc_bytes_seq(wsv.skip(i as int)),
        decreases ws@.len() - i,
    {
        enc_bytes(&ws[i], out);
        proof {
            reveal_with_fuel(spec_enc_bytes_seq, 2);
            let rest = wsv.skip(i as int);
            assert(rest[0] == wsv[i as int]);
            assert(rest.skip(1) =~= wsv.skip(i + 1));
            assert(mid + spec_enc_bytes_seq(wsv)
                =~= out@ + spec_enc_bytes_seq(wsv.skip(i + 1)));
        }
        i += 1;
    }
    proof {
        reveal_with_fuel(spec_enc_bytes_seq, 2);
        assert(wsv.skip(ws@.len() as int) =~= Seq::<Seq<u8>>::empty());
        assert(final(out)@ =~= old(out)@ + spec_enc_bytes_vec(wsv));
    }
}

/// Reads a counted list of byte strings at `pos`, exactly as
/// [`spec_dec_bytes_vec`] describes.
pub fn dec_bytes_vec(s: &[u8], pos: usize) -> (r: Option<(Vec<Vec<u8>>, usize)>)
    ensures
        match r {
            Some((v, p)) => spec_dec_bytes_vec(s@, pos as int)
                == Some((v@.map_values(|w: Vec<u8>| w@), p as int)),
            None => spec_dec_bytes_vec(s@, pos as int) is None,
        },
{
    let (n, start) = match dec_u64(s, pos) {
        Some(x) => x,
        None => {
            return None;
        },
    };
    if n > (s.len() - start) as u64 {
        return None;
    }
    let count = n as usize;
    let mut out: Vec<Vec<u8>> = Vec::new();
    let mut cur = start;
    let mut i: usize = 0;
    proof {
        reveal_with_fuel(spec_dec_bytes_seq, 2);
    }
    while i < count
        invariant
            i <= count,
            spec_dec_u64(s@, pos as int) == Some((n, start as int)),
            count as int == n as int,
            n as int <= s@.len() - start,
            spec_dec_bytes_seq(s@, start as int, count as int)
                == match spec_dec_bytes_seq(s@, cur as int, count - i) {
                    Some((rest, q)) =>
                        Some((out@.map_values(|w: Vec<u8>| w@) + rest, q)),
                    None => None::<(Seq<Seq<u8>>, int)>,
                },
        decreases count - i,
    {
        let (b, p2) = match dec_bytes(s, cur) {
            Some(x) => x,
            None => {
                proof {
                    reveal_with_fuel(spec_dec_bytes_seq, 2);
                }
                assert(spec_dec_bytes_seq(s@, cur as int, count - i) is None);
                assert(n as int == count as int);
                assert(spec_dec_bytes_seq(s@, start as int, n as int) is None);
                assert(spec_dec_bytes_vec(s@, pos as int) is None);
                return None;
            },
        };
        proof {
            let outv = out@.map_values(|w: Vec<u8>| w@);
            let outv2 = out@.push(b).map_values(|w: Vec<u8>| w@);
            assert(outv2 =~= outv + seq![b@]);
        }
        out.push(b);
        cur = p2;
        i += 1;
        proof {
            reveal_with_fuel(spec_dec_bytes_seq, 2);
            match spec_dec_bytes_seq(s@, cur as int, count - i) {
                Some((rest, q)) => {
                    assert(out@.map_values(|w: Vec<u8>| w@) + rest
                        =~= out@.map_values(|w: Vec<u8>| w@).subrange(0,
                            out@.len() - 1) + (seq![b@] + rest));
                },
                None => {},
            }
        }
    }
    Some((out, cur))
}

/// Splitting a concatenation of three runs either way yields the same
/// bytes: used to step a decoder past one field's encoding.
pub proof fn lemma_split3(pre: Seq<u8>, a: Seq<u8>, b: Seq<u8>, suf: Seq<u8>)
    ensures
        pre + (a + b) + suf == (pre + a) + b + suf,
        pre + (a + b) + suf == pre + a + (b + suf),
{
    vstd::seq_lib::lemma_concat_associative(pre, a, b);
    vstd::seq_lib::lemma_concat_associative(pre + a, b, suf);
}

/// A list of byte strings decodes back to itself wherever its encoding is
/// embedded.
#[verifier::rlimit(100)]
pub proof fn lemma_rt_bytes_seq(ws: Seq<Seq<u8>>, pre: Seq<u8>, suf: Seq<u8>)
    requires
        forall|i: int| 0 <= i < ws.len() ==> (#[trigger] ws[i]).len() <= u64::MAX,
    ensures
        spec_dec_bytes_seq(pre + spec_enc_bytes_seq(ws) + suf, pre.len() as int, ws.len() as int)
            == Some((ws, pre.len() + spec_enc_bytes_seq(ws).len() as int)),
    decreases ws.len(),
{
    reveal_with_fuel(spec_enc_bytes_seq, 2);
    reveal_with_fuel(spec_dec_bytes_seq, 2);
    if ws.len() == 0 {
        assert(ws =~= Seq::<Seq<u8>>::empty());
    } else {
        let tail = ws.skip(1);
        let e0 = spec_enc_bytes(ws[0]);
        let etail = spec_enc_bytes_seq(tail);
        let s = pre + spec_enc_bytes_seq(ws) + suf;
        lemma_split3(pre, e0, etail, suf);
        lemma_rt_bytes(ws[0], pre, etail + suf);
        assert(spec_dec_bytes(s, pre.len() as int)
            == Some((ws[0], pre.len() + e0.len() as int)));
        assert forall|i: int| 0 <= i < tail.len()
            implies (#[trigger] tail[i]).len() <= u64::MAX by {
            assert(tail[i] == ws[i + 1]);
        }
        lemma_rt_bytes_seq(tail, pre + e0, suf);
        assert(spec_dec_bytes_seq(s, pre.len() + e0.len() as int, tail.len() as int)
            == Some((tail, pre.len() + e0.len() + etail.len() as int)));
        assert(seq![ws[0]] + tail =~= ws);
    }
}

/// A counted list of byte strings decodes back to itself wherever its
/// encoding is embedded.
#[verifier::rlimit(100)]
pub proof fn lemma_rt_bytes_vec(ws: Seq<Seq<u8>>, pre: Seq<u8>, suf: Seq<u8>)
    requires
        ws.len() <= u64::MAX,
        forall|i: int| 0 <= i < ws.len() ==> (#[trigger] ws[i]).len() <= u64::MAX,
    ensures
        spec_dec_bytes_vec(pre + spec_enc_bytes_vec(ws) + suf, pre.len() as int)
            == Some((ws, pre.len() + spec_enc_bytes_vec(ws).len() as int)),
{
    let hdr = spec_enc_u64(ws.len() as u64);
    let body = spec_enc_bytes_seq(ws);
    let s = pre + spec_enc_bytes_vec(ws) + suf;
    lemma_split3(pre, hdr, body, suf);
    lemma_rt_u64(ws.len() as u64, pre, body + suf);
    assert(spec_dec_u64(s, pre.len() as int)
        == Some((ws.len() as u64, pre.len() + 8 as int)));
    lemma_enc_bytes_seq_len(ws);
    assert(ws.len() as int <= s.len() - (pre.len() + 8));
    lemma_rt_bytes_seq(ws, pre + hdr, suf);
    assert(spec_dec_bytes_seq(s, pre.len() + 8 as int, ws.len() as int)
        == Some((ws, pre.len() + 8 + body.len() as int)));
}


/// Peels one length-prefixed byte string off the front of an encoding:
/// the decoder reads it, and the bytes regroup for the next field.
#[verifier::rlimit(100)]
#[verifier::spinoff_prover]
pub proof fn lemma_peel_bytes(b: Seq<u8>, pre: Seq<u8>, rest: Seq<u8>, suf: Seq<u8>, s: Seq<u8>)
    requires
        b.len() <= u64::MAX,
        s == pre + (spec_enc_bytes(b) + rest) + suf,
    ensures
        spec_dec_bytes(s, pre.len() as int)
            == Some((b, pre.len() + spec_enc_bytes(b).len() as int)),
        s == (pre + spec_enc_bytes(b)) + rest + suf,
{
    lemma_split3(pre, spec_enc_bytes(b), rest, suf);
    lemma_rt_bytes(b, pre, rest + suf);
}

/// Peels one `u32` off the front of an encoding.
#[verifier::rlimit(100)]
#[verifier::spinoff_prover]
pub proof fn lemma_peel_u32(v: u32, pre: Seq<u8>, rest: Seq<u8>, suf: Seq<u8>, s: Seq<u8>)
    requires
        s == pre + (spec_enc_u32(v) + rest) + suf,
    ensures
        spec_dec_u32(s, pre.len() as int) == Some((v, pre.len() + 4 as int)),
        s == (pre + spec_enc_u32(v)) + rest + suf,
{
    lemma_split3(pre, spec_enc_u32(v), rest, suf);
    lemma_rt_u32(v, pre, rest + suf);
}

/// Peels one `u64` off the front of an encoding.
#[verifier::rlimit(100)]
#[verifier::spinoff_prover]
pub proof fn lemma_peel_u64(v: u64, pre: Seq<u8>, rest: Seq<u8>, suf: Seq<u8>, s: Seq<u8>)
    requires
        s == pre + (spec_enc_u64(v) + rest) + suf,
    ensures
        spec_dec_u64(s, pre.len() as int) == Some((v, pre.len() + 8 as int)),
        s == (pre + spec_enc_u64(v)) + rest + suf,
{
    lemma_split3(pre, spec_enc_u64(v), rest, suf);
    lemma_rt_u64(v, pre, rest + suf);
}

} // verus!
