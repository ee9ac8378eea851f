//! Wire layout of the context bundle: the program context and the two
//! external resource tables, with the round-trip proof that decoding an
//! encoded bundle yields the identical structure back.

use vstd::prelude::*;

use crate::codec::{spec_enc_u32, spec_dec_u32, enc_u32, dec_u32, lemma_rt_u32,
    spec_enc_u64, spec_dec_u64, enc_u64, dec_u64, lemma_rt_u64,
    spec_enc_usize, spec_dec_usize, enc_usize, dec_usize, lemma_rt_usize,
    spec_enc_bytes, spec_dec_bytes, enc_bytes, dec_bytes, lemma_rt_bytes};
use crate::ir::{FullProgramContext, FullProgramContextV, Header, HeaderV, ProgramContext, Txo,
    TxoV};
use crate::wire::{spec_enc_bytes_vec, spec_dec_bytes_vec, enc_bytes_vec, dec_bytes_vec,
    lemma_rt_bytes_vec, lemma_split3, lemma_peel_bytes, lemma_peel_u32, lemma_peel_u64};

verus! {

broadcast use crate::codec::lemma_enc_u32_len, crate::codec::lemma_enc_u64_len;

// ---------------------------------------------------------------------
// program context
// ---------------------------------------------------------------------

/// The encoding of a program context: its three fields in order.
pub open spec fn spec_enc_context(c: ProgramContext) -> Seq<u8> {
    spec_enc_usize(c.num_nodes)
        + (spec_enc_usize(c.num_connections) + spec_enc_u64(c.timestamp))
}

/// Reads a program context at `pos`.
pub open spec fn spec_dec_context(s: Seq<u8>, pos: int) -> Option<(ProgramContext, int)> {
    match spec_dec_usize(s, pos) {
        Some((num_nodes, p1)) => match spec_dec_usize(s, p1) {
            Some((num_connections, p2)) => match spec_dec_u64(s, p2) {
                Some((timestamp, p3)) => Some((
                    ProgramContext { num_nodes, num_connections, timestamp },
                    p3,
                )),
                None => None,
            },
            None => None,
        },
        None => None,
    }
}

/// Appends the encoding of `c` to `out`.
pub fn enc_context(c: &ProgramContext, out: &mut Vec<u8>)
    ensures
        final(out)@ == old(out)@ + spec_enc_context(*c),
{
    enc_usize(c.num_nodes, out);
    enc_usize(c.num_connections, out);
    enc_u64(c.timestamp, out);
    assert(out@ =~= old(out)@ + spec_enc_context(*c));
}

/// Reads a program context at `pos`, exactly as [`spec_dec_context`]
/// describes.
pub fn dec_context(s: &[u8], pos: usize) -> (r: Option<(ProgramContext, usize)>)
    ensures
        match r {
            Some((c, p)) => spec_dec_context(s@, pos as int) == Some((c, p as int)),
            None => spec_dec_context(s@, pos as int) is None,
        },
{
    let (num_nodes, p1) = match dec_usize(s, pos) {
        Some(x) => x,
        None => { return None; },
    };
    let (num_connections, p2) = match dec_usize(s, p1) {
        Some(x) => x,
        None => { return None; },
    };
    let (timestamp, p3) = match dec_u64(s, p2) {
        Some(x) => x,
        None => { return None; },
    };
    Some((ProgramContext { num_nodes, num_connections, timestamp }, p3))
}

/// A program context decodes back to itself wherever its encoding is
/// embedded.
pub proof fn lemma_rt_context(c: ProgramContext, pre: Seq<u8>, suf: Seq<u8>)
    ensures
        spec_dec_context(pre + spec_enc_context(c) + suf, pre.len() as int)
            == Some((c, pre.len() + spec_enc_context(c).len() as int)),
{
    let s = pre + spec_enc_context(c) + suf;
    let f1 = spec_enc_usize(c.num_nodes);
    let f2 = spec_enc_usize(c.num_connections);
    let f3 = spec_enc_u64(c.timestamp);
    lemma_split3(pre, f1, f2 + f3, suf);
    lemma_rt_usize(c.num_nodes, pre, (f2 + f3) + suf);
    assert(spec_dec_usize(s, pre.len() as int)
        == Some((c.num_nodes, pre.len() + 8 as int)));
    lemma_split3(pre + f1, f2, f3, suf);
    lemma_rt_usize(c.num_connections, pre + f1, f3 + suf);
    assert(spec_dec_usize(s, pre.len() + 8 as int)
        == Some((c.num_connections, pre.len() + 16 as int)));
    lemma_rt_u64(c.timestamp, (pre + f1) + f2, suf);
    assert(spec_dec_u64(s, pre.len() + 16 as int)
        == Some((c.timestamp, pre.len() + 24 as int)));
}

// ---------------------------------------------------------------------
// spendable outputs
// ---------------------------------------------------------------------

/// Whether a spendable output's byte fields fit under the wire format's
/// length prefixes. Every value built from in-memory vectors does.
pub open spec fn txo_bounded(t: TxoV) -> bool {
    &&& t.outpoint_txid.len() <= u64::MAX
    &&& t.script_pubkey.len() <= u64::MAX
    &&& t.spending_script_sig.len() <= u64::MAX
    &&& t.spending_witness.len() <= u64::MAX
    &&& forall|i: int| 0 <= i < t.spending_witness.len()
        ==> (#[trigger] t.spending_witness[i]).len() <= u64::MAX
}

/// The encoding of a spendable output: its six fields in order.
pub open spec fn spec_enc_txo(t: TxoV) -> Seq<u8> {
    spec_enc_bytes(t.outpoint_txid)
        + (spec_enc_u32(t.outpoint_vout)
        + (spec_enc_u64(t.value)
        + (spec_enc_bytes(t.script_pubkey)
        + (spec_enc_bytes(t.spending_script_sig)
        + spec_enc_bytes_vec(t.spending_witness)))))
}

/// Reads a spendable output at `pos`.
pub open spec fn spec_dec_txo(s: Seq<u8>, pos: int) -> Option<(TxoV, int)> {
    match spec_dec_bytes(s, pos) {
        Some((outpoint_txid, p1)) => match spec_dec_u32(s, p1) {
            Some((outpoint_vout, p2)) => match spec_dec_u64(s, p2) {
                Some((value, p3)) => match spec_dec_bytes(s, p3) {
                    Some((script_pubkey, p4)) => match spec_dec_bytes(s, p4) {
                        Some((spending_script_sig, p5)) => match spec_dec_bytes_vec(s, p5) {
                            Some((spending_witness, p6)) => Some((
                                TxoV {
                                    outpoint_txid,
                                    outpoint_vout,
                                    value,
                                    script_pubkey,
                                    spending_script_sig,
                                    spending_witness,
                                },
                                p6,
                            )),
                            None => None,
                        },
                        None => None,
                    },
                    None => None,
                },
                None => None,
            },
            None => None,
        },
        None => None,
    }
}

/// Appends the encoding of `t` to `out`.
pub fn enc_txo(t: &Txo, out: &mut Vec<u8>)
    ensures
        final(out)@ == old(out)@ + spec_enc_txo(t@),
{
    enc_bytes(&t.outpoint_txid, out);
    enc_u32(t.outpoint_vout, out);
    enc_u64(t.value, out);
    enc_bytes(&t.script_pubkey, out);
    enc_bytes(&t.spending_script_sig, out);
    enc_bytes_vec(&t.spending_witness, out);
    assert(out@ =~= old(out)@ + spec_enc_txo(t@));
}

/// Reads a spendable output at `pos`, exactly as [`spec_dec_txo`]
/// describes.
pub fn dec_txo(s: &[u8], pos: usize) -> (r: Option<(Txo, usize)>)
    ensures
        match r {
            Some((t, p)) => spec_dec_txo(s@, pos as int) == Some((t@, p as int)),
            None => spec_dec_txo(s@, pos as int) is None,
        },
{
    let (outpoint_txid, p1) = match dec_bytes(s, pos) {
        Some(x) => x,
        None => { return None; },
    };
    let (outpoint_vout, p2) = match dec_u32(s, p1) {
        Some(x) => x,
        None => { return None; },
    };
    let (value, p3) = match dec_u64(s, p2) {
        Some(x) => x,
        None => { return None; },
    };
    let (script_pubkey, p4) = match dec_bytes(s, p3) {
        Some(x) => x,
        None => { return None; },
    };
    let (spending_script_sig, p5) = match dec_bytes(s, p4) {
        Some(x) => x,
        None => { return None; },
    };
    let (spending_witness, p6) = match dec_bytes_vec(s, p5) {
        Some(x) => x,
        None => { return None; },
    };
    Some((
        Txo {
            outpoint_txid,
            outpoint_vout,
            value,
            script_pubkey,
            spending_script_sig,
            spending_witness,
        },
        p6,
    ))
}

/// Assembles the whole-output decode result from the six field decodes.
proof fn lemma_rt_txo_assemble(
    t: TxoV,
    s: Seq<u8>,
    pos: int,
    p1: int,
    p2: int,
    p3: int,
    p4: int,
    p5: int,
    p6: int,
)
    requires
        spec_dec_bytes(s, pos) == Some((t.outpoint_txid, p1)),
        spec_dec_u32(s, p1) == Some((t.outpoint_vout, p2)),
        spec_dec_u64(s, p2) == Some((t.value, p3)),
        spec_dec_bytes(s, p3) == Some((t.script_pubkey, p4)),
        spec_dec_bytes(s, p4) == Some((t.spending_script_sig, p5)),
        spec_dec_bytes_vec(s, p5) == Some((t.spending_witness, p6)),
    ensures
        spec_dec_txo(s, pos) == Some((t, p6)),
{
    assert((TxoV {
        outpoint_txid: t.outpoint_txid,
        outpoint_vout: t.outpoint_vout,
        value: t.value,
        script_pubkey: t.script_pubkey,
        spending_script_sig: t.spending_script_sig,
        spending_witness: t.spending_witness,
    }) =~= t);
}

/// A spendable output decodes back to itself wherever its encoding is
/// embedded.
#[verifier::rlimit(100)]
pub proof fn lemma_rt_txo(t: TxoV, pre: Seq<u8>, suf: Seq<u8>)
    requires
        txo_bounded(t),
    ensures
        spec_dec_txo(pre + spec_enc_txo(t) + suf, pre.len() as int)
            == Some((t, pre.len() + spec_enc_txo(t).len() as int)),
{
    let s = pre + spec_enc_txo(t) + suf;
    let f1 = spec_enc_bytes(t.outpoint_txid);
    let f2 = spec_enc_u32(t.outpoint_vout);
    let f3 = spec_enc_u64(t.value);
    let f4 = spec_enc_bytes(t.script_pubkey);
    let f5 = spec_enc_bytes(t.spending_script_sig);
    let f6 = spec_enc_bytes_vec(t.spending_witness);

    lemma_peel_bytes(t.outpoint_txid, pre, f2 + (f3 + (f4 + (f5 + f6))), suf, s);
    lemma_peel_u32(t.outpoint_vout, pre + f1, f3 + (f4 + (f5 + f6)), suf, s);
    lemma_peel_u64(t.value, (pre + f1) + f2, f4 + (f5 + f6), suf, s);
    lemma_peel_bytes(t.script_pubkey, ((pre + f1) + f2) + f3, f5 + f6, suf, s);
    lemma_peel_bytes(t.spending_script_sig, (((pre + f1) + f2) + f3) + f4, f6, suf, s);
    lemma_rt_bytes_vec(t.spending_witness, ((((pre + f1) + f2) + f3) + f4) + f5, suf);
    let p1 = pre.len() + f1.len() as int;
    let p2 = p1 + 4;
    let p3 = p2 + 8;
    let p4 = p3 + f4.len() as int;
    let p5 = p4 + f5.len() as int;
    let p6 = p5 + f6.len() as int;
    lemma_rt_txo_assemble(t, s, pre.len() as int, p1, p2, p3, p4, p5, p6);
}

// ---------------------------------------------------------------------
// headers
// ---------------------------------------------------------------------

/// Whether a header's byte fields fit under the wire format's length
/// prefixes.
pub open spec fn header_bounded(h: HeaderV) -> bool {
    &&& h.prev.len() <= u64::MAX
    &&& h.merkle_root.len() <= u64::MAX
}

/// The encoding of a header: its seven fields in order.
pub open spec fn spec_enc_header(h: HeaderV) -> Seq<u8> {
    spec_enc_bytes(h.prev)
        + (spec_enc_bytes(h.merkle_root)
        + (spec_enc_u32(h.nonce)
        + (spec_enc_u32(h.bits)
        + (spec_enc_u32(h.time)
        + (spec_enc_u32(h.version)
        + spec_enc_u32(h.height))))))
}

/// Reads a header at `pos`.
pub open spec fn spec_dec_header(s: Seq<u8>, pos: int) -> Option<(HeaderV, int)> {
    match spec_dec_bytes(s, pos) {
        Some((prev, p1)) => match spec_dec_bytes(s, p1) {
            Some((merkle_root, p2)) => match spec_dec_u32(s, p2) {
                Some((nonce, p3)) => match spec_dec_u32(s, p3) {
                    Some((bits, p4)) => match spec_dec_u32(s, p4) {
                        Some((time, p5)) => match spec_dec_u32(s, p5) {
                            Some((version, p6)) => match spec_dec_u32(s, p6) {
                                Some((height, p7)) => Some((
                                    HeaderV {
                                        prev,
                                        merkle_root,
                                        nonce,
                                        bits,
                                        time,
                                        version,
                                        height,
                                    },
                                    p7,
                                )),
                                None => None,
                            },
                            None => None,
                        },
                        None => None,
                    },
                    None => None,
                },
                None => None,
            },
            None => None,
        },
        None => None,
    }
}

/// Appends the encoding of `h` to `out`.
pub fn enc_header(h: &Header, out: &mut Vec<u8>)
    ensures
        final(out)@ == old(out)@ + spec_enc_header(h@),
{
    enc_bytes(&h.prev, out);
    enc_bytes(&h.merkle_root, out);
    enc_u32(h.nonce, out);
    enc_u32(h.bits, out);
    enc_u32(h.time, out);
    enc_u32(h.version, out);
    enc_u32(h.height, out);
    assert(out@ =~= old(out)@ + spec_enc_header(h@));
}

/// Reads a header at `pos`, exactly as [`spec_dec_header`] describes.
pub fn dec_header(s: &[u8], pos: usize) -> (r: Option<(Header, usize)>)
    ensures
        match r {
            Some((h, p)) => spec_dec_header(s@, pos as int) == Some((h@, p as int)),
            None => spec_dec_header(s@, pos as int) is None,
        },
{
    let (prev, p1) = match dec_bytes(s, pos) {
        Some(x) => x,
        None => { return None; },
    };
    let (merkle_root, p2) = match dec_bytes(s, p1) {
        Some(x) => x,
        None => { return None; },
    };
    let (nonce, p3) = match dec_u32(s, p2) {
        Some(x) => x,
        None => { return None; },
    };
    let (bits, p4) = match dec_u32(s, p3) {
        Some(x) => x,
        None => { return None; },
    };
    let (time, p5) = match dec_u32(s, p4) {
        Some(x) => x,
        None => { return None; },
    };
    let (version, p6) = match dec_u32(s, p5) {
        Some(x) => x,
        None => { return None; },
    };
    let (height, p7) = match dec_u32(s, p6) {
        Some(x) => x,
        None => { return None; },
    };
    Some((Header { prev, merkle_root, nonce, bits, time, version, height }, p7))
}

/// A header decodes back to itself wherever its encoding is embedded.
#[verifier::rlimit(100)]
pub proof fn lemma_rt_header(h: HeaderV, pre: Seq<u8>, suf: Seq<u8>)
    requires
        header_bounded(h),
    ensures
        spec_dec_header(pre + spec_enc_header(h) + suf, pre.len() as int)
            == Some((h, pre.len() + spec_enc_header(h).len() as int)),
{
    let s = pre + spec_enc_header(h) + suf;
    let f1 = spec_enc_bytes(h.prev);
    let f2 = spec_enc_bytes(h.merkle_root);
    let f3 = spec_enc_u32(h.nonce);
    let f4 = spec_enc_u32(h.bits);
    let f5 = spec_enc_u32(h.time);
    let f6 = spec_enc_u32(h.version);
    let f7 = spec_enc_u32(h.height);

    lemma_peel_bytes(h.prev, pre, f2 + (f3 + (f4 + (f5 + (f6 + f7)))), suf, s);
    lemma_peel_bytes(h.merkle_root, pre + f1, f3 + (f4 + (f5 + (f6 + f7))), suf, s);
    lemma_peel_u32(h.nonce, (pre + f1) + f2, f4 + (f5 + (f6 + f7)), suf, s);
    lemma_peel_u32(h.bits, ((pre + f1) + f2) + f3, f5 + (f6 + f7), suf, s);
    lemma_peel_u32(h.time, (((pre + f1) + f2) + f3) + f4, f6 + f7, suf, s);
    lemma_peel_u32(h.version, ((((pre + f1) + f2) + f3) + f4) + f5, f7, suf, s);
    lemma_rt_u32(h.height, (((((pre + f1) + f2) + f3) + f4) + f5) + f6, suf);
}



// ---------------------------------------------------------------------
// sequences of spendable outputs
// ---------------------------------------------------------------------

/// Whether every output in the run fits the wire format's length
/// prefixes.
pub open spec fn txo_seq_bounded(ts: Seq<TxoV>) -> bool {
    forall|i: int| 0 <= i < ts.len() ==> txo_bounded(#[trigger] ts[i])
}

/// The concatenated encodings of a run of spendable outputs.
#[verifier::opaque]
pub open spec fn spec_enc_txo_seq(ts: Seq<TxoV>) -> Seq<u8>
    decreases ts.len(),
{
    if ts.len() == 0 {
        seq![]
    } else {
        spec_enc_txo(ts[0]) + spec_enc_txo_seq(ts.skip(1))
    }
}

/// Reads `count` spendable outputs one after another, starting at `pos`.
#[verifier::opaque]
pub open spec fn spec_dec_txo_seq(s: Seq<u8>, pos: int, count: int) -> Option<(Seq<TxoV>, int)>
    decreases count,
{
    if count <= 0 {
        Some((seq![], pos))
    } else {
        match spec_dec_txo(s, pos) {
            Some((t, p)) => match spec_dec_txo_seq(s, p, count - 1) {
                Some((rest, q)) => Some((seq![t] + rest, q)),
                None => None,
            },
            None => None,
        }
    }
}

/// Every run of spendable outputs encodes to at least one byte per item.
pub proof fn lemma_enc_txo_seq_len(ts: Seq<TxoV>)
    ensures
        spec_enc_txo_seq(ts).len() >= ts.len(),
    decreases ts.len(),
{
    reveal_with_fuel(spec_enc_txo_seq, 2);
    if ts.len() > 0 {
        lemma_enc_txo_seq_len(ts.skip(1));
    }
}

/// The encoding of a table of spendable outputs: the count, then the
/// items.
pub open spec fn spec_enc_txo_vec(ts: Seq<TxoV>) -> Seq<u8> {
    spec_enc_u64(ts.len() as u64) + spec_enc_txo_seq(ts)
}

/// Reads a counted table of spendable outputs at `pos`.
pub open spec fn spec_dec_txo_vec(s: Seq<u8>, pos: int) -> Option<(Seq<TxoV>, int)> {
    match spec_dec_u64(s, pos) {
        Some((n, p)) => if n <= s.len() - p {
            spec_dec_txo_seq(s, p, n as int)
        } else {
            None
        },
        None => None,
    }
}

/// Appends the encoding of `ts` to `out`.
pub fn enc_txo_vec(ts: &Vec<Txo>, out: &mut Vec<u8>)
    ensures
        final(out)@ == old(out)@ + spec_enc_txo_vec(ts@.map_values(|t: Txo| t@)),
{
    let ghost tsv = ts@.map_values(|t: Txo| t@);
    enc_u64(ts.len() as u64, out);
    let ghost mid = out@;
    let mut i: usize = 0;
    assert(tsv.skip(0) =~= tsv);
    while i < ts.len()
        invariant
            i <= ts@.len(),
            tsv == ts@.map_values(|t: Txo| t@),
            mid + spec_enc_txo_seq(tsv) == out@ + spec_enc_txo_seq(tsv.skip(i as int)),
        decreases ts@.len() - i,
    {
        enc_txo(&ts[i], out);
        proof {
            reveal_with_fuel(spec_enc_txo_seq, 2);
            let rest = tsv.skip(i as int);
            assert(rest[0] == tsv[i as int]);
            assert(rest.skip(1) =~= tsv.skip(i + 1));
            assert(mid + spec_enc_txo_seq(tsv)
                =~= out@ + spec_enc_txo_seq(tsv.skip(i + 1)));
        }
        i += 1;
    }
    proof {
        reveal_with_fuel(spec_enc_txo_seq, 2);
        assert(tsv.skip(ts@.len() as int) =~= Seq::<TxoV>::empty());
        assert(final(out)@ =~= old(out)@ + spec_enc_txo_vec(tsv));
    }
}

/// Reads a counted table of spendable outputs at `pos`, exactly as
/// [`spec_dec_txo_vec`] describes.
pub fn dec_txo_vec(s: &[u8], pos: usize) -> (r: Option<(Vec<Txo>, usize)>)
    ensures
        match r {
            Some((v, p)) => spec_dec_txo_vec(s@, pos as int)
                == Some((v@.map_values(|t: Txo| t@), p as int)),
            None => spec_dec_txo_vec(s@, pos as int) is None,
        },
{
    let (n, start) = match dec_u64(s, pos) {
        Some(x) => x,
        None => { return None; },
    };
    if n > (s.len() - start) as u64 {
        return None;
    }
    let count = n as usize;
    let mut out: Vec<Txo> = Vec::new();
    let mut cur = start;
    let mut i: usize = 0;
    proof {
        reveal_with_fuel(spec_dec_txo_seq, 2);
    }
    while i < count
        invariant
            i <= count,
            spec_dec_u64(s@, pos as int) == Some((n, start as int)),
            count as int == n as int,
            n as int <= s@.len() - start,
            spec_dec_txo_seq(s@, start as int, count as int)
                == match spec_dec_txo_seq(s@, cur as int, count - i) {
                    Some((rest, q)) =>
                        Some((out@.map_values(|t: Txo| t@) + rest, q)),
                    None => None::<(Seq<TxoV>, int)>,
                },
        decreases count - i,
    {
        let (t, p2) = match dec_txo(s, cur) {
            Some(x) => x,
            None => {
                proof {
                    reveal_with_fuel(spec_dec_txo_seq, 2);
                }
                assert(spec_dec_txo_seq(s@, cur as int, count - i) is None);
                assert(spec_dec_txo_vec(s@, pos as int) is None);
                return None;
            },
        };
        proof {
            let outv = out@.map_values(|t: Txo| t@);
            let outv2 = out@.push(t).map_values(|t: Txo| t@);
            assert(outv2 =~= outv + seq![t@]);
        }
        out.push(t);
        cur = p2;
        i += 1;
        proof {
            reveal_with_fuel(spec_dec_txo_seq, 2);
            match spec_dec_txo_seq(s@, cur as int, count - i) {
                Some((rest, q)) => {
                    assert(out@.map_values(|t: Txo| t@) + rest
                        =~= out@.map_values(|t: Txo| t@).subrange(0,
                            out@.len() - 1) + (seq![t@] + rest));
                },
                None => {},
            }
        }
    }
    Some((out, cur))
}

/// A run of spendable outputs decodes back to itself wherever its
/// encoding is embedded.
pub proof fn lemma_rt_txo_seq(ts: Seq<TxoV>, pre: Seq<u8>, suf: Seq<u8>)
    requires
        txo_seq_bounded(ts),
    ensures
        spec_dec_txo_seq(pre + spec_enc_txo_seq(ts) + suf, pre.len() as int, ts.len() as int)
            == Some((ts, pre.len() + spec_enc_txo_seq(ts).len() as int)),
    decreases ts.len(),
{
    reveal_with_fuel(spec_enc_txo_seq, 2);
    reveal_with_fuel(spec_dec_txo_seq, 2);
    if ts.len() == 0 {
        assert(ts =~= Seq::<TxoV>::empty());
    } else {
        let tail = ts.skip(1);
        let e0 = spec_enc_txo(ts[0]);
        let etail = spec_enc_txo_seq(tail);
        let s = pre + spec_enc_txo_seq(ts) + suf;
        lemma_split3(pre, e0, etail, suf);
        lemma_rt_txo(ts[0], pre, etail + suf);
        assert(spec_dec_txo(s, pre.len() as int)
            == Some((ts[0], pre.len() + e0.len() as int)));
        assert forall|i: int| 0 <= i < tail.len()
            implies txo_bounded(#[trigger] tail[i]) by {
            assert(tail[i] == ts[i + 1]);
        }
        lemma_rt_txo_seq(tail, pre + e0, suf);
        assert(spec_dec_txo_seq(s, pre.len() + e0.len() as int, tail.len() as int)
            == Some((tail, pre.len() + e0.len() + etail.len() as int)));
        assert(seq![ts[0]] + tail =~= ts);
    }
}

/// A counted table of spendable outputs decodes back to itself wherever
/// its encoding is embedded.
pub proof fn lemma_rt_txo_vec(ts: Seq<TxoV>, pre: Seq<u8>, suf: Seq<u8>)
    requires
        ts.len() <= u64::MAX,
        txo_seq_bounded(ts),
    ensures
        spec_dec_txo_vec(pre + spec_enc_txo_vec(ts) + suf, pre.len() as int)
            == Some((ts, pre.len() + spec_enc_txo_vec(ts).len() as int)),
{
    let hdr = spec_enc_u64(ts.len() as u64);
    let body = spec_enc_txo_seq(ts);
    let s = pre + spec_enc_txo_vec(ts) + suf;
    lemma_split3(pre, hdr, body, suf);
    lemma_rt_u64(ts.len() as u64, pre, body + suf);
    assert(spec_dec_u64(s, pre.len() as int)
        == Some((ts.len() as u64, pre.len() + 8 as int)));
    lemma_enc_txo_seq_len(ts);
    assert(ts.len() as int <= s.len() - (pre.len() + 8));
    lemma_rt_txo_seq(ts, pre + hdr, suf);
    assert(spec_dec_txo_seq(s, pre.len() + 8 as int, ts.len() as int)
        == Some((ts, pre.len() + 8 + body.len() as int)));
}

// ---------------------------------------------------------------------
// sequences of headers
// ---------------------------------------------------------------------

/// Whether every header in the run fits the wire format's length
/// prefixes.
pub open spec fn header_seq_bounded(hs: Seq<HeaderV>) -> bool {
    forall|i: int| 0 <= i < hs.len() ==> header_bounded(#[trigger] hs[i])
}

/// The concatenated encodings of a run of headers.
#[verifier::opaque]
pub open spec fn spec_enc_header_seq(hs: Seq<HeaderV>) -> Seq<u8>
    decreases hs.len(),
{
    if hs.len() == 0 {
        seq![]
    } else {
        spec_enc_header(hs[0]) + spec_enc_header_seq(hs.skip(1))
    }
}

/// Reads `count` headers one after another, starting at `pos`.
#[verifier::opaque]
pub open spec fn spec_dec_header_seq(s: Seq<u8>, pos: int, count: int)
    -> Option<(Seq<HeaderV>, int)>
    decreases count,
{
    if count <= 0 {
        Some((seq![], pos))
    } else {
        match spec_dec_header(s, pos) {
            Some((h, p)) => match spec_dec_header_seq(s, p, count - 1) {
                Some((rest, q)) => Some((seq![h] + rest, q)),
                None => None,
            },
            None => None,
        }
    }
}

/// Every run of headers encodes to at least one byte per item.
pub proof fn lemma_enc_header_seq_len(hs: Seq<HeaderV>)
    ensures
        spec_enc_header_seq(hs).len() >= hs.len(),
    decreases hs.len(),
{
    reveal_with_fuel(spec_enc_header_seq, 2);
    if hs.len() > 0 {
        lemma_enc_header_seq_len(hs.skip(1));
    }
}

/// The encoding of a table of headers: the count, then the items.
pub open spec fn spec_enc_header_vec(hs: Seq<HeaderV>) -> Seq<u8> {
    spec_enc_u64(hs.len() as u64) + spec_enc_header_seq(hs)
}

/// Reads a counted table of headers at `pos`.
pub open spec fn spec_dec_header_vec(s: Seq<u8>, pos: int) -> Option<(Seq<HeaderV>, int)> {
    match spec_dec_u64(s, pos) {
        Some((n, p)) => if n <= s.len() - p {
            spec_dec_header_seq(s, p, n as int)
        } else {
            None
        },
        None => None,
    }
}

/// Appends the encoding of `hs` to `out`.
pub fn enc_header_vec(hs: &Vec<Header>, out: &mut Vec<u8>)
    ensures
        final(out)@ == old(out)@ + spec_enc_header_vec(hs@.map_values(|h: Header| h@)),
{
    let ghost hsv = hs@.map_values(|h: Header| h@);
    enc_u64(hs.len() as u64, out);
    let ghost mid = out@;
    let mut i: usize = 0;
    assert(hsv.skip(0) =~= hsv);
    while i < hs.len()
        invariant
            i <= hs@.len(),
            hsv == hs@.map_values(|h: Header| h@),
            mid + spec_enc_header_seq(hsv) == out@ + spec_enc_header_seq(hsv.skip(i as int)),
        decreases hs@.len() - i,
    {
        enc_header(&hs[i], out);
        proof {
            reveal_with_fuel(spec_enc_header_seq, 2);
            let rest = hsv.skip(i as int);
            assert(rest[0] == hsv[i as int]);
            assert(rest.skip(1) =~= hsv.skip(i + 1));
            assert(mid + spec_enc_header_seq(hsv)
                =~= out@ + spec_enc_header_seq(hsv.skip(i + 1)));
        }
        i += 1;
    }
    proof {
        reveal_with_fuel(spec_enc_header_seq, 2);
        assert(hsv.skip(hs@.len() as int) =~= Seq::<HeaderV>::empty());
        assert(final(out)@ =~= old(out)@ + spec_enc_header_vec(hsv));
    }
}

/// Reads a counted table of headers at `pos`, exactly as
/// [`spec_dec_header_vec`] describes.
pub fn dec_header_vec(s: &[u8], pos: usize) -> (r: Option<(Vec<Header>, usize)>)
    ensures
        match r {
            Some((v, p)) => spec_dec_header_vec(s@, pos as int)
                == Some((v@.map_values(|h: Header| h@), p as int)),
            None => spec_dec_header_vec(s@, pos as int) is None,
        },
{
    let (n, start) = match dec_u64(s, pos) {
        Some(x) => x,
        None => { return None; },
    };
    if n > (s.len() - start) as u64 {
        return None;
    }
    let count = n as usize;
    let mut out: Vec<Header> = Vec::new();
    let mut cur = start;
    let mut i: usize = 0;
    proof {
        reveal_with_fuel(spec_dec_header_seq, 2);
    }
    while i < count
        invariant
            i <= count,
            spec_dec_u64(s@, pos as int) == Some((n, start as int)),
            count as int == n as int,
            n as int <= s@.len() - start,
            spec_dec_header_seq(s@, start as int, count as int)
                == match spec_dec_header_seq(s@, cur as int, count - i) {
                    Some((rest, q)) =>
                        Some((out@.map_values(|h: Header| h@) + rest, q)),
                    None => None::<(Seq<HeaderV>, int)>,
                },
        decreases count - i,
    {
        let (h, p2) = match dec_header(s, cur) {
            Some(x) => x,
            None => {
                proof {
                    reveal_with_fuel(spec_dec_header_seq, 2);
                }
                assert(spec_dec_header_seq(s@, cur as int, count - i) is None);
                assert(spec_dec_header_vec(s@, pos as int) is None);
                return None;
            },
        };
        proof {
            let outv = out@.map_values(|h: Header| h@);
            let outv2 = out@.push(h).map_values(|h: Header| h@);
            assert(outv2 =~= outv + seq![h@]);
        }
        out.push(h);
        cur = p2;
        i += 1;
        proof {
            reveal_with_fuel(spec_dec_header_seq, 2);
            match spec_dec_header_seq(s@, cur as int, count - i) {
                Some((rest, q)) => {
                    assert(out@.map_values(|h: Header| h@) + rest
                        =~= out@.map_values(|h: Header| h@).subrange(0,
                            out@.len() - 1) + (seq![h@] + rest));
                },
                None => {},
            }
        }
    }
    Some((out, cur))
}

/// A run of headers decodes back to itself wherever its encoding is
/// embedded.
pub proof fn lemma_rt_header_seq(hs: Seq<HeaderV>, pre: Seq<u8>, suf: Seq<u8>)
    requires
        header_seq_bounded(hs),
    ensures
        spec_dec_header_seq(pre + spec_enc_header_seq(hs) + suf, pre.len() as int,
            hs.len() as int)
            == Some((hs, pre.len() + spec_enc_header_seq(hs).len() as int)),
    decreases hs.len(),
{
    reveal_with_fuel(spec_enc_header_seq, 2);
    reveal_with_fuel(spec_dec_header_seq, 2);
    if hs.len() == 0 {
        assert(hs =~= Seq::<HeaderV>::empty());
    } else {
        let tail = hs.skip(1);
        let e0 = spec_enc_header(hs[0]);
        let etail = spec_enc_header_seq(tail);
        let s = pre + spec_enc_header_seq(hs) + suf;
        lemma_split3(pre, e0, etail, suf);
        lemma_rt_header(hs[0], pre, etail + suf);
        assert(spec_dec_header(s, pre.len() as int)
            == Some((hs[0], pre.len() + e0.len() as int)));
        assert forall|i: int| 0 <= i < tail.len()
            implies header_bounded(#[trigger] tail[i]) by {
            assert(tail[i] == hs[i + 1]);
        }
        lemma_rt_header_seq(tail, pre + e0, suf);
        assert(spec_dec_header_seq(s, pre.len() + e0.len() as int, tail.len() as int)
            == Some((tail, pre.len() + e0.len() + etail.len() as int)));
        assert(seq![hs[0]] + tail =~= hs);
    }
}

/// A counted table of headers decodes back to itself wherever its
/// encoding is embedded.
pub proof fn lemma_rt_header_vec(hs: Seq<HeaderV>, pre: Seq<u8>, suf: Seq<u8>)
    requires
        hs.len() <= u64::MAX,
        header_seq_bounded(hs),
    ensures
        spec_dec_header_vec(pre + spec_enc_header_vec(hs) + suf, pre.len() as int)
            == Some((hs, pre.len() + spec_enc_header_vec(hs).len() as int)),
{
    let hdr = spec_enc_u64(hs.len() as u64);
    let body = spec_enc_header_seq(hs);
    let s = pre + spec_enc_header_vec(hs) + suf;
    lemma_split3(pre, hdr, body, suf);
    lemma_rt_u64(hs.len() as u64, pre, body + suf);
    assert(spec_dec_u64(s, pre.len() as int)
        == Some((hs.len() as u64, pre.len() + 8 as int)));
    lemma_enc_header_seq_len(hs);
    assert(hs.len() as int <= s.len() - (pre.len() + 8));
    lemma_rt_header_seq(hs, pre + hdr, suf);
    assert(spec_dec_header_seq(s, pre.len() + 8 as int, hs.len() as int)
        == Some((hs, pre.len() + 8 + body.len() as int)));
}

// ---------------------------------------------------------------------
// the context bundle
// ---------------------------------------------------------------------

/// Whether a bundle's tables fit the wire format's length prefixes.
pub open spec fn full_context_bounded(f: FullProgramContextV) -> bool {
    &&& f.txos.len() <= u64::MAX
    &&& txo_seq_bounded(f.txos)
    &&& f.headers.len() <= u64::MAX
    &&& header_seq_bounded(f.headers)
}

/// The encoding of the context bundle: the program context, the output
/// table, then the header table.
pub open spec fn spec_enc_full_context(f: FullProgramContextV) -> Seq<u8> {
    spec_enc_context(f.context)
        + (spec_enc_txo_vec(f.txos) + spec_enc_header_vec(f.headers))
}

/// Reads a context bundle at `pos`.
pub open spec fn spec_dec_full_context(s: Seq<u8>, pos: int)
    -> Option<(FullProgramContextV, int)> {
    match spec_dec_context(s, pos) {
        Some((context, p1)) => match spec_dec_txo_vec(s, p1) {
            Some((txos, p2)) => match spec_dec_header_vec(s, p2) {
                Some((headers, p3)) => Some((
                    FullProgramContextV { context, txos, headers },
                    p3,
                )),
                None => None,
            },
            None => None,
        },
        None => None,
    }
}

/// Reads a context bundle that must span the whole buffer.
pub open spec fn spec_decode_bundle(s: Seq<u8>) -> Option<FullProgramContextV> {
    match spec_dec_full_context(s, 0) {
        Some((f, p)) => if p == s.len() {
            Some(f)
        } else {
            None
        },
        None => None,
    }
}

/// Serializes the context bundle with the fixed binary codec.
pub fn encode_full_context(f: &FullProgramContext) -> (r: Vec<u8>)
    ensures
        r@ == spec_enc_full_context(f@),
{
    let mut out: Vec<u8> = Vec::new();
    enc_context(&f.context, &mut out);
    enc_txo_vec(&f.txos, &mut out);
    enc_header_vec(&f.headers, &mut out);
    assert(out@ =~= spec_enc_full_context(f@));
    out
}

/// Reads a whole-buffer context bundle, exactly as [`spec_decode_bundle`]
/// describes.
pub fn decode_full_context(s: &[u8]) -> (r: Option<FullProgramContext>)
    ensures
        match r {
            Some(f) => spec_decode_bundle(s@) == Some(f@),
            None => spec_decode_bundle(s@) is None,
        },
{
    let (context, p1) = match dec_context(s, 0) {
        Some(x) => x,
        None => { return None; },
    };
    let (txos, p2) = match dec_txo_vec(s, p1) {
        Some(x) => x,
        None => { return None; },
    };
    let (headers, p3) = match dec_header_vec(s, p2) {
        Some(x) => x,
        None => { return None; },
    };
    if p3 != s.len() {
        return None;
    }
    Some(FullProgramContext { context, txos, headers })
}

/// Round trip of the context bundle: encoding a program context together
/// with its output and header tables and decoding the bytes yields the
/// identical structure.
pub proof fn lemma_bundle_round_trip(f: FullProgramContextV)
    requires
        full_context_bounded(f),
    ensures
        spec_decode_bundle(spec_enc_full_context(f)) == Some(f),
{
    let e = spec_enc_full_context(f);
    let f1 = spec_enc_context(f.context);
    let f2 = spec_enc_txo_vec(f.txos);
    let f3 = spec_enc_header_vec(f.headers);
    let pre = Seq::<u8>::empty();
    let suf = Seq::<u8>::empty();
    let s = pre + e + suf;
    assert(s =~= e);
    lemma_split3(pre, f1, f2 + f3, suf);
    lemma_rt_context(f.context, pre, (f2 + f3) + suf);
    assert(spec_dec_context(s, 0) == Some((f.context, f1.len() as int)));
    lemma_split3(pre + f1, f2, f3, suf);
    lemma_rt_txo_vec(f.txos, pre + f1, f3 + suf);
    assert(spec_dec_txo_vec(s, f1.len() as int)
        == Some((f.txos, f1.len() + f2.len() as int)));
    lemma_rt_header_vec(f.headers, (pre + f1) + f2, suf);
    assert(spec_dec_header_vec(s, f1.len() + f2.len() as int)
        == Some((f.headers, f1.len() + f2.len() + f3.len() as int)));
    assert((FullProgramContextV {
        context: f.context,
        txos: f.txos,
        headers: f.headers,
    }) =~= f);
    assert(spec_dec_full_context(e, 0) == Some((f, e.len() as int)));
}

} // verus!
