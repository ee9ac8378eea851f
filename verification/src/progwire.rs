//! Wire layout of symbolic programs and compiled programs: a tag byte per
//! operation or action variant, fixed-width payloads, counted sequences.

use vstd::prelude::*;

use crate::codec::{spec_enc_u8, spec_dec_u8, enc_u8, dec_u8, lemma_rt_u8,
    spec_enc_u64, spec_dec_u64, enc_u64, dec_u64, lemma_rt_u64,
    spec_enc_usize, spec_dec_usize, enc_usize, dec_usize, lemma_rt_usize,
    spec_enc_bytes, spec_dec_bytes, enc_bytes, dec_bytes, lemma_rt_bytes};
use crate::compiler::{CompiledAction, CompiledActionV, CompiledProgram, CompiledProgramV};
use crate::ir::{Instruction, InstructionV, Operation, Program, ProgramV};
use crate::tables::{spec_enc_context, spec_dec_context, enc_context, dec_context,
    lemma_rt_context};
use crate::wire::{lemma_split3};

verus! {

broadcast use crate::codec::lemma_enc_u32_len, crate::codec::lemma_enc_u64_len;

// ---------------------------------------------------------------------
// operations
// ---------------------------------------------------------------------

/// The encoding of an operation: a tag byte, then the payload if the
/// variant carries one.
pub open spec fn spec_enc_op(op: Operation) -> Seq<u8> {
    match op {
        Operation::LoadConnection(k) => spec_enc_u8(0) + spec_enc_u64(k),
        Operation::SetTime(t) => spec_enc_u8(1) + spec_enc_u64(t),
        Operation::SendGetTemplate => spec_enc_u8(2),
        Operation::BuildTemplate => spec_enc_u8(3),
        Operation::SendTemplate => spec_enc_u8(4),
    }
}

/// Reads an operation at `pos`; an unknown tag is refused.
pub open spec fn spec_dec_op(s: Seq<u8>, pos: int) -> Option<(Operation, int)> {
    match spec_dec_u8(s, pos) {
        Some((tag, p)) => if tag == 0 {
            match spec_dec_u64(s, p) {
                Some((k, q)) => Some((Operation::LoadConnection(k), q)),
                None => None,
            }
        } else if tag == 1 {
            match spec_dec_u64(s, p) {
                Some((t, q)) => Some((Operation::SetTime(t), q)),
                None => None,
            }
        } else if tag == 2 {
            Some((Operation::SendGetTemplate, p))
        } else if tag == 3 {
            Some((Operation::BuildTemplate, p))
        } else if tag == 4 {
            Some((Operation::SendTemplate, p))
        } else {
            None
        },
        None => None,
    }
}

/// Appends the encoding of `op` to `out`.
pub fn enc_op(op: &Operation, out: &mut Vec<u8>)
    ensures
        final(out)@ == old(out)@ + spec_enc_op(*op),
{
    match op {
        Operation::LoadConnection(k) => {
            enc_u8(0, out);
            enc_u64(*k, out);
            assert(out@ =~= old(out)@ + spec_enc_op(*op));
        },
        Operation::SetTime(t) => {
            enc_u8(1, out);
            enc_u64(*t, out);
            assert(out@ =~= old(out)@ + spec_enc_op(*op));
        },
        Operation::SendGetTemplate => {
            enc_u8(2, out);
        },
        Operation::BuildTemplate => {
            enc_u8(3, out);
        },
        Operation::SendTemplate => {
            enc_u8(4, out);
        },
    }
}

/// Reads an operation at `pos`, exactly as [`spec_dec_op`] describes.
pub fn dec_op(s: &[u8], pos: usize) -> (r: Option<(Operation, usize)>)
    ensures
        match r {
            Some((op, p)) => spec_dec_op(s@, pos as int) == Some((op, p as int)),
            None => spec_dec_op(s@, pos as int) is None,
        },
{
    let (tag, p) = match dec_u8(s, pos) {
        Some(x) => x,
        None => { return None; },
    };
    if tag == 0 {
        match dec_u64(s, p) {
            Some((k, q)) => Some((Operation::LoadConnection(k), q)),
            None => None,
        }
    } else if tag == 1 {
        match dec_u64(s, p) {
            Some((t, q)) => Some((Operation::SetTime(t), q)),
            None => None,
        }
    } else if tag == 2 {
        Some((Operation::SendGetTemplate, p))
    } else if tag == 3 {
        Some((Operation::BuildTemplate, p))
    } else if tag == 4 {
        Some((Operation::SendTemplate, p))
    } else {
        None
    }
}

/// An operation decodes back to itself wherever its encoding is embedded.
pub proof fn lemma_rt_op(op: Operation, pre: Seq<u8>, suf: Seq<u8>)
    ensures
        spec_dec_op(pre + spec_enc_op(op) + suf, pre.len() as int)
            == Some((op, pre.len() + spec_enc_op(op).len() as int)),
{
    let s = pre + spec_enc_op(op) + suf;
    match op {
        Operation::LoadConnection(k) => {
            lemma_split3(pre, spec_enc_u8(0), spec_enc_u64(k), suf);
            lemma_rt_u8(0, pre, spec_enc_u64(k) + suf);
            lemma_rt_u64(k, pre + spec_enc_u8(0), suf);
        },
        Operation::SetTime(t) => {
            lemma_split3(pre, spec_enc_u8(1), spec_enc_u64(t), suf);
            lemma_rt_u8(1, pre, spec_enc_u64(t) + suf);
            lemma_rt_u64(t, pre + spec_enc_u8(1), suf);
        },
        Operation::SendGetTemplate => {
            lemma_rt_u8(2, pre, suf);
        },
        Operation::BuildTemplate => {
            lemma_rt_u8(3, pre, suf);
        },
        Operation::SendTemplate => {
            lemma_rt_u8(4, pre, suf);
        },
    }
}

// ---------------------------------------------------------------------
// input lists
// ---------------------------------------------------------------------

/// The concatenated encodings of a run of variable indices.
#[verifier::opaque]
pub open spec fn spec_enc_usize_seq(xs: Seq<usize>) -> Seq<u8>
    decreases xs.len(),
{
    if xs.len() == 0 {
        seq![]
    } else {
        spec_enc_usize(xs[0]) + spec_enc_usize_seq(xs.skip(1))
    }
}

/// Reads `count` variable indices one after another, starting at `pos`.
#[verifier::opaque]
pub open spec fn spec_dec_usize_seq(s: Seq<u8>, pos: int, count: int)
    -> Option<(Seq<usize>, int)>
    decreases count,
{
    if count <= 0 {
        Some((seq![], pos))
    } else {
        match spec_dec_usize(s, pos) {
            Some((x, p)) => match spec_dec_usize_seq(s, p, count - 1) {
                Some((rest, q)) => Some((seq![x] + rest, q)),
                None => None,
            },
            None => None,
        }
    }
}

/// Every run of variable indices encodes to at least one byte per item.
pub proof fn lemma_enc_usize_seq_len(xs: Seq<usize>)
    ensures
        spec_enc_usize_seq(xs).len() >= xs.len(),
    decreases xs.len(),
{
    reveal_with_fuel(spec_enc_usize_seq, 2);
    if xs.len() > 0 {
        lemma_enc_usize_seq_len(xs.skip(1));
    }
}

/// The encoding of an input list: the count, then the indices.
pub open spec fn spec_enc_usize_vec(xs: Seq<usize>) -> Seq<u8> {
    spec_enc_u64(xs.len() as u64) + spec_enc_usize_seq(xs)
}

/// Reads a counted input list at `pos`.
pub open spec fn spec_dec_usize_vec(s: Seq<u8>, pos: int) -> Option<(Seq<usize>, int)> {
    match spec_dec_u64(s, pos) {
        Some((n, p)) => if n <= s.len() - p {
            spec_dec_usize_seq(s, p, n as int)
        } else {
            None
        },
        None => None,
    }
}

/// Appends the encoding of `xs` to `out`.
pub fn enc_usize_vec(xs: &Vec<usize>, out: &mut Vec<u8>)
    ensures
        final(out)@ == old(out)@ + spec_enc_usize_vec(xs@),
{
    enc_u64(xs.len() as u64, out);
    let ghost mid = out@;
    let mut i: usize = 0;
    assert(xs@.skip(0) =~= xs@);
    while i < xs.len()
        invariant
            i <= xs@.len(),
            mid + spec_enc_usize_seq(xs@) == out@ + spec_enc_usize_seq(xs@.skip(i as int)),
        decreases xs@.len() - i,
    {
        enc_usize(xs[i], out);
        proof {
            reveal_with_fuel(spec_enc_usize_seq, 2);
            let rest = xs@.skip(i as int);
            assert(rest[0] == xs@[i as int]);
            assert(rest.skip(1) =~= xs@.skip(i + 1));
            assert(mid + spec_enc_usize_seq(xs@)
                =~= out@ + spec_enc_usize_seq(xs@.skip(i + 1)));
        }
        i += 1;
    }
    proof {
        reveal_with_fuel(spec_enc_usize_seq, 2);
        assert(xs@.skip(xs@.len() as int) =~= Seq::<usize>::empty());
        assert(final(out)@ =~= old(out)@ + spec_enc_usize_vec(xs@));
    }
}

/// Reads a counted input list at `pos`, exactly as [`spec_dec_usize_vec`]
/// describes.
pub fn dec_usize_vec(s: &[u8], pos: usize) -> (r: Option<(Vec<usize>, usize)>)
    ensures
        match r {
            Some((v, p)) => spec_dec_usize_vec(s@, pos as int) == Some((v@, p as int)),
            None => spec_dec_usize_vec(s@, pos as int) is None,
        },
{
    let (n, start) = match dec_u64(s, pos) {
        Some(x) => x,
        None => { return None; },
    };
    if n > (s.len() - start) as u64 {
        return None;
    }
    let count = n as usize;
    let mut out: Vec<usize> = Vec::new();
    let mut cur = start;
    let mut i: usize = 0;
    proof {
        reveal_with_fuel(spec_dec_usize_seq, 2);
    }
    while i < count
        invariant
            i <= count,
            spec_dec_u64(s@, pos as int) == Some((n, start as int)),
            count as int == n as int,
            n as int <= s@.len() - start,
            spec_dec_usize_seq(s@, start as int, count as int)
                == match spec_dec_usize_seq(s@, cur as int, count - i) {
                    Some((rest, q)) => Some((out@ + rest, q)),
                    None => None::<(Seq<usize>, int)>,
                },
        decreases count - i,
    {
        let (x, p2) = match dec_usize(s, cur) {
            Some(y) => y,
            None => {
                proof {
                    reveal_with_fuel(spec_dec_usize_seq, 2);
                }
                assert(spec_dec_usize_seq(s@, cur as int, count - i) is None);
                assert(spec_dec_usize_vec(s@, pos as int) is None);
                return None;
            },
        };
        out.push(x);
        cur = p2;
        i += 1;
        proof {
            reveal_with_fuel(spec_dec_usize_seq, 2);
            match spec_dec_usize_seq(s@, cur as int, count - i) {
                Some((rest, q)) => {
                    assert(out@ + rest
                        =~= out@.subrange(0, out@.len() - 1) + (seq![x] + rest));
                },
                None => {},
            }
        }
    }
    Some((out, cur))
}

/// A counted input list decodes back to itself wherever its encoding is
/// embedded.
pub proof fn lemma_rt_usize_seq(xs: Seq<usize>, pre: Seq<u8>, suf: Seq<u8>)
    ensures
        spec_dec_usize_seq(pre + spec_enc_usize_seq(xs) + suf, pre.len() as int,
            xs.len() as int)
            == Some((xs, pre.len() + spec_enc_usize_seq(xs).len() as int)),
    decreases xs.len(),
{
    reveal_with_fuel(spec_enc_usize_seq, 2);
    reveal_with_fuel(spec_dec_usize_seq, 2);
    if xs.len() == 0 {
        assert(xs =~= Seq::<usize>::empty());
    } else {
        let tail = xs.skip(1);
        let e0 = spec_enc_usize(xs[0]);
        let etail = spec_enc_usize_seq(tail);
        let s = pre + spec_enc_usize_seq(xs) + suf;
        lemma_split3(pre, e0, etail, suf);
        lemma_rt_usize(xs[0], pre, etail + suf);
        assert(spec_dec_usize(s, pre.len() as int)
            == Some((xs[0], pre.len() + e0.len() as int)));
        lemma_rt_usize_seq(tail, pre + e0, suf);
        assert(spec_dec_usize_seq(s, pre.len() + e0.len() as int, tail.len() as int)
            == Some((tail, pre.len() + e0.len() + etail.len() as int)));
        assert(seq![xs[0]] + tail =~= xs);
    }
}

/// A counted input list decodes back to itself wherever its encoding is
/// embedded.
pub proof fn lemma_rt_usize_vec(xs: Seq<usize>, pre: Seq<u8>, suf: Seq<u8>)
    requires
        xs.len() <= u64::MAX,
    ensures
        spec_dec_usize_vec(pre + spec_enc_usize_vec(xs) + suf, pre.len() as int)
            == Some((xs, pre.len() + spec_enc_usize_vec(xs).len() as int)),
{
    let hdr = spec_enc_u64(xs.len() as u64);
    let body = spec_enc_usize_seq(xs);
    let s = pre + spec_enc_usize_vec(xs) + suf;
    lemma_split3(pre, hdr, body, suf);
    lemma_rt_u64(xs.len() as u64, pre, body + suf);
    assert(spec_dec_u64(s, pre.len() as int)
        == Some((xs.len() as u64, pre.len() + 8 as int)));
    lemma_enc_usize_seq_len(xs);
    assert(xs.len() as int <= s.len() - (pre.len() + 8));
    lemma_rt_usize_seq(xs, pre + hdr, suf);
    assert(spec_dec_usize_seq(s, pre.len() + 8 as int, xs.len() as int)
        == Some((xs, pre.len() + 8 + body.len() as int)));
}

// ---------------------------------------------------------------------
// instructions
// ---------------------------------------------------------------------

/// Whether an instruction's input list fits the wire format's count
/// prefix.
pub open spec fn instr_wire_bounded(i: InstructionV) -> bool {
    i.inputs.len() <= u64::MAX
}

/// The encoding of an instruction: its operation, then its input list.
pub open spec fn spec_enc_instr(i: InstructionV) -> Seq<u8> {
    spec_enc_op(i.operation) + spec_enc_usize_vec(i.inputs)
}

/// Reads an instruction at `pos`.
pub open spec fn spec_dec_instr(s: Seq<u8>, pos: int) -> Option<(InstructionV, int)> {
    match spec_dec_op(s, pos) {
        Some((operation, p1)) => match spec_dec_usize_vec(s, p1) {
            Some((inputs, p2)) => Some((InstructionV { operation, inputs }, p2)),
            None => None,
        },
        None => None,
    }
}

/// Appends the encoding of `i` to `out`.
pub fn enc_instr(i: &Instruction, out: &mut Vec<u8>)
    ensures
        final(out)@ == old(out)@ + spec_enc_instr(i@),
{
    enc_op(&i.operation, out);
    enc_usize_vec(&i.inputs, out);
    assert(out@ =~= old(out)@ + spec_enc_instr(i@));
}

/// Reads an instruction at `pos`, exactly as [`spec_dec_instr`] describes.
pub fn dec_instr(s: &[u8], pos: usize) -> (r: Option<(Instruction, usize)>)
    ensures
        match r {
            Some((i, p)) => spec_dec_instr(s@, pos as int) == Some((i@, p as int)),
            None => spec_dec_instr(s@, pos as int) is None,
        },
{
    let (operation, p1) = match dec_op(s, pos) {
        Some(x) => x,
        None => { return None; },
    };
    let (inputs, p2) = match dec_usize_vec(s, p1) {
        Some(x) => x,
        None => { return None; },
    };
    Some((Instruction { operation, inputs }, p2))
}

/// An instruction decodes back to itself wherever its encoding is
/// embedded.
pub proof fn lemma_rt_instr(i: InstructionV, pre: Seq<u8>, suf: Seq<u8>)
    requires
        instr_wire_bounded(i),
    ensures
        spec_dec_instr(pre + spec_enc_instr(i) + suf, pre.len() as int)
            == Some((i, pre.len() + spec_enc_instr(i).len() as int)),
{
    let s = pre + spec_enc_instr(i) + suf;
    let f1 = spec_enc_op(i.operation);
    let f2 = spec_enc_usize_vec(i.inputs);
    lemma_split3(pre, f1, f2, suf);
    lemma_rt_op(i.operation, pre, f2 + suf);
    assert(spec_dec_op(s, pre.len() as int)
        == Some((i.operation, pre.len() + f1.len() as int)));
    lemma_rt_usize_vec(i.inputs, pre + f1, suf);
    assert(spec_dec_usize_vec(s, pre.len() + f1.len() as int)
        == Some((i.inputs, pre.len() + f1.len() + f2.len() as int)));
    assert((InstructionV { operation: i.operation, inputs: i.inputs }) =~= i);
}


// ---------------------------------------------------------------------
// instruction streams and programs
// ---------------------------------------------------------------------

/// Whether every instruction in the run fits the wire format's count
/// prefixes.
pub open spec fn instr_seq_bounded(xs: Seq<InstructionV>) -> bool {
    forall|i: int| 0 <= i < xs.len() ==> instr_wire_bounded(#[trigger] xs[i])
}

/// The concatenated encodings of a run of instructions.
#[verifier::opaque]
pub open spec fn spec_enc_instr_seq(xs: Seq<InstructionV>) -> Seq<u8>
    decreases xs.len(),
{
    if xs.len() == 0 {
        seq![]
    } else {
        spec_enc_instr(xs[0]) + spec_enc_instr_seq(xs.skip(1))
    }
}

/// Reads `count` instructions one after another, starting at `pos`.
#[verifier::opaque]
pub open spec fn spec_dec_instr_seq(s: Seq<u8>, pos: int, count: int)
    -> Option<(Seq<InstructionV>, int)>
    decreases count,
{
    if count <= 0 {
        Some((seq![], pos))
    } else {
        match spec_dec_instr(s, pos) {
            Some((x, p)) => match spec_dec_instr_seq(s, p, count - 1) {
                Some((rest, q)) => Some((seq![x] + rest, q)),
                None => None,
            },
            None => None,
        }
    }
}

/// Every run of instructions encodes to at least one byte per item.
pub proof fn lemma_enc_instr_seq_len(xs: Seq<InstructionV>)
    ensures
        spec_enc_instr_seq(xs).len() >= xs.len(),
    decreases xs.len(),
{
    reveal_with_fuel(spec_enc_instr_seq, 2);
    if xs.len() > 0 {
        lemma_enc_instr_seq_len(xs.skip(1));
    }
}

/// The encoding of an instruction stream: the count, then the items.
pub open spec fn spec_enc_instr_vec(xs: Seq<InstructionV>) -> Seq<u8> {
    spec_enc_u64(xs.len() as u64) + spec_enc_instr_seq(xs)
}

/// Reads a counted instruction stream at `pos`.
pub open spec fn spec_dec_instr_vec(s: Seq<u8>, pos: int) -> Option<(Seq<InstructionV>, int)> {
    match spec_dec_u64(s, pos) {
        Some((n, p)) => if n <= s.len() - p {
            spec_dec_instr_seq(s, p, n as int)
        } else {
            None
        },
        None => None,
    }
}

/// Appends the encoding of `xs` to `out`.
pub fn enc_instr_vec(xs: &Vec<Instruction>, out: &mut Vec<u8>)
    ensures
        final(out)@ == old(out)@
            + spec_enc_instr_vec(xs@.map_values(|x: Instruction| x@)),
{
    let ghost xsv = xs@.map_values(|x: Instruction| x@);
    enc_u64(xs.len() as u64, out);
    let ghost mid = out@;
    let mut i: usize = 0;
    assert(xsv.skip(0) =~= xsv);
    while i < xs.len()
        invariant
            i <= xs@.len(),
            xsv == xs@.map_values(|x: Instruction| x@),
            mid + spec_enc_instr_seq(xsv) == out@ + spec_enc_instr_seq(xsv.skip(i as int)),
        decreases xs@.len() - i,
    {
        enc_instr(&xs[i], out);
        proof {
            reveal_with_fuel(spec_enc_instr_seq, 2);
            let rest = xsv.skip(i as int);
            assert(rest[0] == xsv[i as int]);
            assert(rest.skip(1) =~= xsv.skip(i + 1));
            assert(mid + spec_enc_instr_seq(xsv)
                =~= out@ + spec_enc_instr_seq(xsv.skip(i + 1)));
        }
        i += 1;
    }
    proof {
        reveal_with_fuel(spec_enc_instr_seq, 2);
        assert(xsv.skip(xs@.len() as int) =~= Seq::<InstructionV>::empty());
        assert(final(out)@ =~= old(out)@ + spec_enc_instr_vec(xsv));
    }
}

/// Reads a counted instruction stream at `pos`, exactly as
/// [`spec_dec_instr_vec`] describes.
pub fn dec_instr_vec(s: &[u8], pos: usize) -> (r: Option<(Vec<Instruction>, usize)>)
    ensures
        match r {
            Some((v, p)) => spec_dec_instr_vec(s@, pos as int)
                == Some((v@.map_values(|x: Instruction| x@), p as int)),
            None => spec_dec_instr_vec(s@, pos as int) is None,
        },
{
    let (n, start) = match dec_u64(s, pos) {
        Some(x) => x,
        None => { return None; },
    };
    if n > (s.len() - start) as u64 {
        return None;
    }
    let count = n as usize;
    let mut out: Vec<Instruction> = Vec::new();
    let mut cur = start;
    let mut i: usize = 0;
    proof {
        reveal_with_fuel(spec_dec_instr_seq, 2);
    }
    while i < count
        invariant
            i <= count,
            spec_dec_u64(s@, pos as int) == Some((n, start as int)),
            count as int == n as int,
            n as int <= s@.len() - start,
            spec_dec_instr_seq(s@, start as int, count as int)
                == match spec_dec_instr_seq(s@, cur as int, count - i) {
                    Some((rest, q)) =>
                        Some((out@.map_values(|x: Instruction| x@) + rest, q)),
                    None => None::<(Seq<InstructionV>, int)>,
                },
        decreases count - i,
    {
        let (x, p2) = match dec_instr(s, cur) {
            Some(y) => y,
            None => {
                proof {
                    reveal_with_fuel(spec_dec_instr_seq, 2);
                }
                assert(spec_dec_instr_seq(s@, cur as int, count - i) is None);
                assert(spec_dec_instr_vec(s@, pos as int) is None);
                return None;
            },
        };
        proof {
            let outv = out@.map_values(|x: Instruction| x@);
            let outv2 = out@.push(x).map_values(|x: Instruction| x@);
            assert(outv2 =~= outv + seq![x@]);
        }
        out.push(x);
        cur = p2;
        i += 1;
        proof {
            reveal_with_fuel(spec_dec_instr_seq, 2);
            match spec_dec_instr_seq(s@, cur as int, count - i) {
                Some((rest, q)) => {
                    assert(out@.map_values(|x: Instruction| x@) + rest
                        =~= out@.map_values(|x: Instruction| x@).subrange(0,
                            out@.len() - 1) + (seq![x@] + rest));
                },
                None => {},
            }
        }
    }
    Some((out, cur))
}

/// A run of instructions decodes back to itself wherever its encoding is
/// embedded.
pub proof fn lemma_rt_instr_seq(xs: Seq<InstructionV>, pre: Seq<u8>, suf: Seq<u8>)
    requires
        instr_seq_bounded(xs),
    ensures
        spec_dec_instr_seq(pre + spec_enc_instr_seq(xs) + suf, pre.len() as int,
            xs.len() as int)
            == Some((xs, pre.len() + spec_enc_instr_seq(xs).len() as int)),
    decreases xs.len(),
{
    reveal_with_fuel(spec_enc_instr_seq, 2);
    reveal_with_fuel(spec_dec_instr_seq, 2);
    if xs.len() == 0 {
        assert(xs =~= Seq::<InstructionV>::empty());
    } else {
        let tail = xs.skip(1);
        let e0 = spec_enc_instr(xs[0]);
        let etail = spec_enc_instr_seq(tail);
        let s = pre + spec_enc_instr_seq(xs) + suf;
        lemma_split3(pre, e0, etail, suf);
        lemma_rt_instr(xs[0], pre, etail + suf);
        assert(spec_dec_instr(s, pre.len() as int)
            == Some((xs[0], pre.len() + e0.len() as int)));
        assert forall|i: int| 0 <= i < tail.len()
            implies instr_wire_bounded(#[trigger] tail[i]) by {
            assert(tail[i] == xs[i + 1]);
        }
        lemma_rt_instr_seq(tail, pre + e0, suf);
        assert(spec_dec_instr_seq(s, pre.len() + e0.len() as int, tail.len() as int)
            == Some((tail, pre.len() + e0.len() + etail.len() as int)));
        assert(seq![xs[0]] + tail =~= xs);
    }
}

/// A counted instruction stream decodes back to itself wherever its
/// encoding is embedded.
pub proof fn lemma_rt_instr_vec(xs: Seq<InstructionV>, pre: Seq<u8>, suf: Seq<u8>)
    requires
        xs.len() <= u64::MAX,
        instr_seq_bounded(xs),
    ensures
        spec_dec_instr_vec(pre + spec_enc_instr_vec(xs) + suf, pre.len() as int)
            == Some((xs, pre.len() + spec_enc_instr_vec(xs).len() as int)),
{
    let hdr = spec_enc_u64(xs.len() as u64);
    let body = spec_enc_instr_seq(xs);
    let s = pre + spec_enc_instr_vec(xs) + suf;
    lemma_split3(pre, hdr, body, suf);
    lemma_rt_u64(xs.len() as u64, pre, body + suf);
    assert(spec_dec_u64(s, pre.len() as int)
        == Some((xs.len() as u64, pre.len() + 8 as int)));
    lemma_enc_instr_seq_len(xs);
    assert(xs.len() as int <= s.len() - (pre.len() + 8));
    lemma_rt_instr_seq(xs, pre + hdr, suf);
    assert(spec_dec_instr_seq(s, pre.len() + 8 as int, xs.len() as int)
        == Some((xs, pre.len() + 8 + body.len() as int)));
}

/// Whether a program fits the wire format's count prefixes.
pub open spec fn program_wire_bounded(p: ProgramV) -> bool {
    &&& p.instructions.len() <= u64::MAX
    &&& instr_seq_bounded(p.instructions)
}

/// The encoding of a symbolic program: its context, then its instruction
/// stream.
pub open spec fn spec_enc_program(p: ProgramV) -> Seq<u8> {
    spec_enc_context(p.context) + spec_enc_instr_vec(p.instructions)
}

/// Reads a symbolic program at `pos`.
pub open spec fn spec_dec_program(s: Seq<u8>, pos: int) -> Option<(ProgramV, int)> {
    match spec_dec_context(s, pos) {
        Some((context, p1)) => match spec_dec_instr_vec(s, p1) {
            Some((instructions, p2)) => Some((ProgramV { instructions, context }, p2)),
            None => None,
        },
        None => None,
    }
}

/// Serializes a symbolic program with the fixed binary codec.
pub fn encode_program(p: &Program) -> (r: Vec<u8>)
    ensures
        r@ == spec_enc_program(p@),
{
    let mut out: Vec<u8> = Vec::new();
    enc_context(&p.context, &mut out);
    enc_instr_vec(&p.instructions, &mut out);
    assert(out@ =~= spec_enc_program(p@));
    out
}

/// Reads a symbolic program at `pos`, exactly as [`spec_dec_program`]
/// describes.
pub fn dec_program(s: &[u8], pos: usize) -> (r: Option<(Program, usize)>)
    ensures
        match r {
            Some((p, q)) => spec_dec_program(s@, pos as int) == Some((p@, q as int)),
            None => spec_dec_program(s@, pos as int) is None,
        },
{
    let (context, p1) = match dec_context(s, pos) {
        Some(x) => x,
        None => { return None; },
    };
    let (instructions, p2) = match dec_instr_vec(s, p1) {
        Some(x) => x,
        None => { return None; },
    };
    Some((Program { instructions, context }, p2))
}

/// A symbolic program decodes back to itself wherever its encoding is
/// embedded.
pub proof fn lemma_rt_program(p: ProgramV, pre: Seq<u8>, suf: Seq<u8>)
    requires
        program_wire_bounded(p),
    ensures
        spec_dec_program(pre + spec_enc_program(p) + suf, pre.len() as int)
            == Some((p, pre.len() + spec_enc_program(p).len() as int)),
{
    let s = pre + spec_enc_program(p) + suf;
    let f1 = spec_enc_context(p.context);
    let f2 = spec_enc_instr_vec(p.instructions);
    lemma_split3(pre, f1, f2, suf);
    lemma_rt_context(p.context, pre, f2 + suf);
    assert(spec_dec_context(s, pre.len() as int)
        == Some((p.context, pre.len() + f1.len() as int)));
    lemma_rt_instr_vec(p.instructions, pre + f1, suf);
    assert(spec_dec_instr_vec(s, pre.len() + f1.len() as int)
        == Some((p.instructions, pre.len() + f1.len() + f2.len() as int)));
    assert((ProgramV { instructions: p.instructions, context: p.context }) =~= p);
}

// ---------------------------------------------------------------------
// compiled actions and compiled programs
// ---------------------------------------------------------------------

/// Whether a compiled action's payload fits the wire format's length
/// prefix.
pub open spec fn action_wire_bounded(a: CompiledActionV) -> bool {
    match a {
        CompiledActionV::SendRawMessage { payload, .. } => payload.len() <= u64::MAX,
        CompiledActionV::SetTime(_) => true,
    }
}

/// The encoding of a compiled action: a tag byte, then the fields.
pub open spec fn spec_enc_action(a: CompiledActionV) -> Seq<u8> {
    match a {
        CompiledActionV::SendRawMessage { connection, command, payload } =>
            spec_enc_u8(0)
                + (spec_enc_u64(connection)
                + (spec_enc_u8(command) + spec_enc_bytes(payload))),
        CompiledActionV::SetTime(t) => spec_enc_u8(1) + spec_enc_u64(t),
    }
}

/// Reads a compiled action at `pos`; an unknown tag is refused.
pub open spec fn spec_dec_action(s: Seq<u8>, pos: int) -> Option<(CompiledActionV, int)> {
    match spec_dec_u8(s, pos) {
        Some((tag, p)) => if tag == 0 {
            match spec_dec_u64(s, p) {
                Some((connection, p1)) => match spec_dec_u8(s, p1) {
                    Some((command, p2)) => match spec_dec_bytes(s, p2) {
                        Some((payload, p3)) => Some((
                            CompiledActionV::SendRawMessage { connection, command, payload },
                            p3,
                        )),
                        None => None,
                    },
                    None => None,
                },
                None => None,
            }
        } else if tag == 1 {
            match spec_dec_u64(s, p) {
                Some((t, q)) => Some((CompiledActionV::SetTime(t), q)),
                None => None,
            }
        } else {
            None
        },
        None => None,
    }
}

/// Appends the encoding of `a` to `out`.
pub fn enc_action(a: &CompiledAction, out: &mut Vec<u8>)
    ensures
        final(out)@ == old(out)@ + spec_enc_action(a@),
{
    match a {
        CompiledAction::SendRawMessage { connection, command, payload } => {
            enc_u8(0, out);
            enc_u64(*connection, out);
            enc_u8(*command, out);
            enc_bytes(payload, out);
            assert(out@ =~= old(out)@ + spec_enc_action(a@));
        },
        CompiledAction::SetTime(t) => {
            enc_u8(1, out);
            enc_u64(*t, out);
            assert(out@ =~= old(out)@ + spec_enc_action(a@));
        },
    }
}

/// Reads a compiled action at `pos`, exactly as [`spec_dec_action`]
/// describes.
pub fn dec_action(s: &[u8], pos: usize) -> (r: Option<(CompiledAction, usize)>)
    ensures
        match r {
            Some((a, p)) => spec_dec_action(s@, pos as int) == Some((a@, p as int)),
            None => spec_dec_action(s@, pos as int) is None,
        },
{
    let (tag, p) = match dec_u8(s, pos) {
        Some(x) => x,
        None => { return None; },
    };
    if tag == 0 {
        let (connection, p1) = match dec_u64(s, p) {
            Some(x) => x,
            None => { return None; },
        };
        let (command, p2) = match dec_u8(s, p1) {
            Some(x) => x,
            None => { return None; },
        };
        let (payload, p3) = match dec_bytes(s, p2) {
            Some(x) => x,
            None => { return None; },
        };
        Some((CompiledAction::SendRawMessage { connection, command, payload }, p3))
    } else if tag == 1 {
        match dec_u64(s, p) {
            Some((t, q)) => Some((CompiledAction::SetTime(t), q)),
            None => None,
        }
    } else {
        None
    }
}

/// A compiled action decodes back to itself wherever its encoding is
/// embedded.
pub proof fn lemma_rt_action(a: CompiledActionV, pre: Seq<u8>, suf: Seq<u8>)
    requires
        action_wire_bounded(a),
    ensures
        spec_dec_action(pre + spec_enc_action(a) + suf, pre.len() as int)
            == Some((a, pre.len() + spec_enc_action(a).len() as int)),
{
    let s = pre + spec_enc_action(a) + suf;
    match a {
        CompiledActionV::SendRawMessage { connection, command, payload } => {
            let f1 = spec_enc_u8(0);
            let f2 = spec_enc_u64(connection);
            let f3 = spec_enc_u8(command);
            let f4 = spec_enc_bytes(payload);
            lemma_split3(pre, f1, f2 + (f3 + f4), suf);
            lemma_rt_u8(0, pre, (f2 + (f3 + f4)) + suf);
            lemma_split3(pre + f1, f2, f3 + f4, suf);
            lemma_rt_u64(connection, pre + f1, (f3 + f4) + suf);
            lemma_split3((pre + f1) + f2, f3, f4, suf);
            lemma_rt_u8(command, (pre + f1) + f2, f4 + suf);
            lemma_rt_bytes(payload, ((pre + f1) + f2) + f3, suf);
            assert((CompiledActionV::SendRawMessage { connection, command, payload }) =~= a);
        },
        CompiledActionV::SetTime(t) => {
            lemma_split3(pre, spec_enc_u8(1), spec_enc_u64(t), suf);
            lemma_rt_u8(1, pre, spec_enc_u64(t) + suf);
            lemma_rt_u64(t, pre + spec_enc_u8(1), suf);
        },
    }
}


/// Whether every action in the run fits the wire format's length
/// prefixes.
pub open spec fn action_seq_bounded(xs: Seq<CompiledActionV>) -> bool {
    forall|i: int| 0 <= i < xs.len() ==> action_wire_bounded(#[trigger] xs[i])
}

/// The concatenated encodings of a run of compiled actions.
#[verifier::opaque]
pub open spec fn spec_enc_action_seq(xs: Seq<CompiledActionV>) -> Seq<u8>
    decreases xs.len(),
{
    if xs.len() == 0 {
        seq![]
    } else {
        spec_enc_action(xs[0]) + spec_enc_action_seq(xs.skip(1))
    }
}

/// Reads `count` compiled actions one after another, starting at `pos`.
#[verifier::opaque]
pub open spec fn spec_dec_action_seq(s: Seq<u8>, pos: int, count: int)
    -> Option<(Seq<CompiledActionV>, int)>
    decreases count,
{
    if count <= 0 {
        Some((seq![], pos))
    } else {
        match spec_dec_action(s, pos) {
            Some((x, p)) => match spec_dec_action_seq(s, p, count - 1) {
                Some((rest, q)) => Some((seq![x] + rest, q)),
                None => None,
            },
            None => None,
        }
    }
}

/// Every run of compiled actions encodes to at least one byte per item.
pub proof fn lemma_enc_action_seq_len(xs: Seq<CompiledActionV>)
    ensures
        spec_enc_action_seq(xs).len() >= xs.len(),
    decreases xs.len(),
{
    reveal_with_fuel(spec_enc_action_seq, 2);
    if xs.len() > 0 {
        lemma_enc_action_seq_len(xs.skip(1));
    }
}

/// The encoding of a compiled program: the action count, then the
/// actions.
pub open spec fn spec_enc_compiled(cp: CompiledProgramV) -> Seq<u8> {
    spec_enc_u64(cp.actions.len() as u64) + spec_enc_action_seq(cp.actions)
}

/// Reads a compiled program at `pos`.
pub open spec fn spec_dec_compiled(s: Seq<u8>, pos: int) -> Option<(CompiledProgramV, int)> {
    match spec_dec_u64(s, pos) {
        Some((n, p)) => if n <= s.len() - p {
            match spec_dec_action_seq(s, p, n as int) {
                Some((actions, q)) => Some((CompiledProgramV { actions }, q)),
                None => None,
            }
        } else {
            None
        },
        None => None,
    }
}

/// Serializes a compiled program with the fixed binary codec.
pub fn encode_compiled(cp: &CompiledProgram) -> (r: Vec<u8>)
    ensures
        r@ == spec_enc_compiled(cp@),
{
    let ghost xsv = cp.actions@.map_values(|a: CompiledAction| a@);
    let mut out: Vec<u8> = Vec::new();
    enc_u64(cp.actions.len() as u64, &mut out);
    let ghost mid = out@;
    let mut i: usize = 0;
    assert(xsv.skip(0) =~= xsv);
    while i < cp.actions.len()
        invariant
            i <= cp.actions@.len(),
            xsv == cp.actions@.map_values(|a: CompiledAction| a@),
            mid + spec_enc_action_seq(xsv) == out@ + spec_enc_action_seq(xsv.skip(i as int)),
        decreases cp.actions@.len() - i,
    {
        enc_action(&cp.actions[i], &mut out);
        proof {
            reveal_with_fuel(spec_enc_action_seq, 2);
            let rest = xsv.skip(i as int);
            assert(rest[0] == xsv[i as int]);
            assert(rest.skip(1) =~= xsv.skip(i + 1));
            assert(mid + spec_enc_action_seq(xsv)
                =~= out@ + spec_enc_action_seq(xsv.skip(i + 1)));
        }
        i += 1;
    }
    proof {
        reveal_with_fuel(spec_enc_action_seq, 2);
        assert(xsv.skip(cp.actions@.len() as int) =~= Seq::<CompiledActionV>::empty());
        assert(out@ =~= spec_enc_compiled(cp@));
    }
    out
}

/// Reads a compiled program at `pos`, exactly as [`spec_dec_compiled`]
/// describes.
pub fn dec_compiled(s: &[u8], pos: usize) -> (r: Option<(CompiledProgram, usize)>)
    ensures
        match r {
            Some((cp, p)) => spec_dec_compiled(s@, pos as int) == Some((cp@, p as int)),
            None => spec_dec_compiled(s@, pos as int) is None,
        },
{
    let (n, start) = match dec_u64(s, pos) {
        Some(x) => x,
        None => { return None; },
    };
    if n > (s.len() - start) as u64 {
        return None;
    }
    let count = n as usize;
    let mut out: Vec<CompiledAction> = Vec::new();
    let mut cur = start;
    let mut i: usize = 0;
    proof {
        reveal_with_fuel(spec_dec_action_seq, 2);
    }
    while i < count
        invariant
            i <= count,
            spec_dec_u64(s@, pos as int) == Some((n, start as int)),
            count as int == n as int,
            n as int <= s@.len() - start,
            spec_dec_action_seq(s@, start as int, count as int)
                == match spec_dec_action_seq(s@, cur as int, count - i) {
                    Some((rest, q)) =>
                        Some((out@.map_values(|a: CompiledAction| a@) + rest, q)),
                    None => None::<(Seq<CompiledActionV>, int)>,
                },
        decreases count - i,
    {
        let (x, p2) = match dec_action(s, cur) {
            Some(y) => y,
            None => {
                proof {
                    reveal_with_fuel(spec_dec_action_seq, 2);
                }
                assert(spec_dec_action_seq(s@, cur as int, count - i) is None);
                assert(spec_dec_compiled(s@, pos as int) is None);
                return None;
            },
        };
        proof {
            let outv = out@.map_values(|a: CompiledAction| a@);
            let outv2 = out@.push(x).map_values(|a: CompiledAction| a@);
            assert(outv2 =~= outv + seq![x@]);
        }
        out.push(x);
        cur = p2;
        i += 1;
        proof {
            reveal_with_fuel(spec_dec_action_seq, 2);
            match spec_dec_action_seq(s@, cur as int, count - i) {
                Some((rest, q)) => {
                    assert(out@.map_values(|a: CompiledAction| a@) + rest
                        =~= out@.map_values(|a: CompiledAction| a@).subrange(0,
                            out@.len() - 1) + (seq![x@] + rest));
                },
                None => {},
            }
        }
    }
    Some((CompiledProgram { actions: out }, cur))
}

/// A run of compiled actions decodes back to itself wherever its encoding
/// is embedded.
pub proof fn lemma_rt_action_seq(xs: Seq<CompiledActionV>, pre: Seq<u8>, suf: Seq<u8>)
    requires
        action_seq_bounded(xs),
    ensures
        spec_dec_action_seq(pre + spec_enc_action_seq(xs) + suf, pre.len() as int,
            xs.len() as int)
            == Some((xs, pre.len() + spec_enc_action_seq(xs).len() as int)),
    decreases xs.len(),
{
    reveal_with_fuel(spec_enc_action_seq, 2);
    reveal_with_fuel(spec_dec_action_seq, 2);
    if xs.len() == 0 {
        assert(xs =~= Seq::<CompiledActionV>::empty());
    } else {
        let tail = xs.skip(1);
        let e0 = spec_enc_action(xs[0]);
        let etail = spec_enc_action_seq(tail);
        let s = pre + spec_enc_action_seq(xs) + suf;
        lemma_split3(pre, e0, etail, suf);
        lemma_rt_action(xs[0], pre, etail + suf);
        assert(spec_dec_action(s, pre.len() as int)
            == Some((xs[0], pre.len() + e0.len() as int)));
        assert forall|i: int| 0 <= i < tail.len()
            implies action_wire_bounded(#[trigger] tail[i]) by {
            assert(tail[i] == xs[i + 1]);
        }
        lemma_rt_action_seq(tail, pre + e0, suf);
        assert(spec_dec_action_seq(s, pre.len() + e0.len() as int, tail.len() as int)
            == Some((tail, pre.len() + e0.len() + etail.len() as int)));
        assert(seq![xs[0]] + tail =~= xs);
    }
}

/// A compiled program decodes back to itself wherever its encoding is
/// embedded.
pub proof fn lemma_rt_compiled(cp: CompiledProgramV, pre: Seq<u8>, suf: Seq<u8>)
    requires
        cp.actions.len() <= u64::MAX,
        action_seq_bounded(cp.actions),
    ensures
        spec_dec_compiled(pre + spec_enc_compiled(cp) + suf, pre.len() as int)
            == Some((cp, pre.len() + spec_enc_compiled(cp).len() as int)),
{
    let hdr = spec_enc_u64(cp.actions.len() as u64);
    let body = spec_enc_action_seq(cp.actions);
    let s = pre + spec_enc_compiled(cp) + suf;
    lemma_split3(pre, hdr, body, suf);
    lemma_rt_u64(cp.actions.len() as u64, pre, body + suf);
    assert(spec_dec_u64(s, pre.len() as int)
        == Some((cp.actions.len() as u64, pre.len() + 8 as int)));
    lemma_enc_action_seq_len(cp.actions);
    assert(cp.actions.len() as int <= s.len() - (pre.len() + 8));
    lemma_rt_action_seq(cp.actions, pre + hdr, suf);
    assert(spec_dec_action_seq(s, pre.len() + 8 as int, cp.actions.len() as int)
        == Some((cp.actions, pre.len() + 8 + body.len() as int)));
    assert((CompiledProgramV { actions: cp.actions }) =~= cp);
}

} // verus!
