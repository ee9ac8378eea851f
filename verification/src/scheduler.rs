//! Decoding a raw fuzz input into a test case, and merging the compiled
//! actions with the control-plane call insertion points into one
//! interleaved sequence.

use vstd::prelude::*;

use crate::compiler::{CompiledAction, CompiledActionV, CompiledProgram, CompiledProgramV,
    Compiler, clone_action, spec_compile};
use crate::ir::program_wf;
use crate::progwire::{spec_dec_program, dec_program, spec_dec_compiled, dec_compiled};

verus! {

/// Why a raw input was rejected: it was empty, its trailing segment did
/// not deserialize as the expected program form, or the deserialized
/// symbolic program failed to compile.
#[derive(Clone, Copy, Debug, PartialEq, Eq, Structural)]
pub enum DecodeError {
    EmptyInput,
    MalformedProgram,
    CompileFailed,
}

/// One test case: a compiled program plus the positions in its action
/// sequence where a control-plane call is inserted.
#[derive(Clone, Debug, PartialEq, Eq)]
pub struct TestCase {
    pub program: CompiledProgram,
    pub rpc_call_points: Vec<usize>,
}

/// Mathematical view of a [`TestCase`].
#[verifier::ext_equal]
pub struct TestCaseV {
    pub program: CompiledProgramV,
    pub rpc_call_points: Seq<usize>,
}

impl View for TestCase {
    type V = TestCaseV;

    open spec fn view(&self) -> TestCaseV {
        TestCaseV { program: self.program@, rpc_call_points: self.rpc_call_points@ }
    }
}

/// The control-plane call insertion points named by the first bytes of a
/// raw input: the first byte, modulo ten, says how many follow; each of
/// the following bytes is one point. A count that runs past the buffer is
/// cut short.
pub open spec fn spec_rpc_points(s: Seq<u8>, n: int) -> Seq<usize> {
    Seq::new(
        if n <= s.len() - 1 {
            n as nat
        } else {
            (s.len() - 1) as nat
        },
        |i: int| s[i + 1] as usize,
    )
}

/// What a raw input decodes to: the insertion points, then the trailing
/// segment as a symbolic program that is compiled on the spot (when
/// `compile_in_vm` holds) or as an already compiled program. The whole
/// trailing segment must be consumed.
pub open spec fn spec_decode_testcase(s: Seq<u8>, compile_in_vm: bool)
    -> Result<TestCaseV, DecodeError> {
    if s.len() == 0 {
        Err(DecodeError::EmptyInput)
    } else {
        let n = (s[0] % 10) as int;
        let points = spec_rpc_points(s, n);
        let start = if n + 1 <= s.len() { n + 1 } else { s.len() as int };
        if compile_in_vm {
            match spec_dec_program(s, start) {
                Some((p, q)) => if q == s.len() {
                    if program_wf(p) {
                        Ok(TestCaseV {
                            program: CompiledProgramV {
                                actions: spec_compile(p, Seq::empty()),
                            },
                            rpc_call_points: points,
                        })
                    } else {
                        Err(DecodeError::CompileFailed)
                    }
                } else {
                    Err(DecodeError::MalformedProgram)
                },
                None => Err(DecodeError::MalformedProgram),
            }
        } else {
            match spec_dec_compiled(s, start) {
                Some((cp, q)) => if q == s.len() {
                    Ok(TestCaseV { program: cp, rpc_call_points: points })
                } else {
                    Err(DecodeError::MalformedProgram)
                },
                None => Err(DecodeError::MalformedProgram),
            }
        }
    }
}

/// Decoding is a pure function of the input bytes: identical bytes always
/// yield the identical test case, or the identical error.
pub proof fn lemma_decode_deterministic(b1: Seq<u8>, b2: Seq<u8>, compile_in_vm: bool)
    requires
        b1 == b2,
    ensures
        spec_decode_testcase(b1, compile_in_vm) == spec_decode_testcase(b2, compile_in_vm),
{
}

impl TestCase {
    /// Decodes a raw fuzz input, exactly as [`spec_decode_testcase`]
    /// describes: the first byte gives the bounded count of control-plane
    /// calls, the next bytes give their insertion points, and the rest is
    /// the program, compiled here when `compile_in_vm` holds.
    pub fn decode(bytes: &[u8], compile_in_vm: bool) -> (r: Result<TestCase, DecodeError>)
        ensures
            match r {
                Ok(tc) => spec_decode_testcase(bytes@, compile_in_vm)
                    == Ok::<TestCaseV, DecodeError>(tc@),
                Err(e) => spec_decode_testcase(bytes@, compile_in_vm)
                    == Err::<TestCaseV, DecodeError>(e),
            },
    {
        if bytes.len() == 0 {
            return Err(DecodeError::EmptyInput);
        }
        let n = (bytes[0] % 10) as usize;
        let mut rpc_call_points: Vec<usize> = Vec::new();
        let mut i: usize = 0;
        assert(rpc_call_points@ =~= spec_rpc_points(bytes@, 0));
        while i < n
            invariant
                i <= n,
                n < 10,
                bytes@.len() > 0,
                rpc_call_points@ == spec_rpc_points(bytes@, i as int),
            decreases n - i,
        {
            if i + 1 < bytes.len() {
                rpc_call_points.push(bytes[i + 1] as usize);
                assert(rpc_call_points@ =~= spec_rpc_points(bytes@, i + 1));
            } else {
                assert(rpc_call_points@ =~= spec_rpc_points(bytes@, i + 1));
            }
            i += 1;
        }
        let start = if n + 1 <= bytes.len() {
            n + 1
        } else {
            bytes.len()
        };
        if compile_in_vm {
            let (program, q) = match dec_program(bytes, start) {
                Some(x) => x,
                None => {
                    return Err(DecodeError::MalformedProgram);
                },
            };
            if q != bytes.len() {
                return Err(DecodeError::MalformedProgram);
            }
            let compiler = Compiler::new();
            assert(compiler@ =~= Seq::empty());
            match compiler.compile(&program) {
                Ok(compiled) => Ok(TestCase { program: compiled, rpc_call_points }),
                Err(_) => Err(DecodeError::CompileFailed),
            }
        } else {
            let (program, q) = match dec_compiled(bytes, start) {
                Some(x) => x,
                None => {
                    return Err(DecodeError::MalformedProgram);
                },
            };
            if q != bytes.len() {
                return Err(DecodeError::MalformedProgram);
            }
            Ok(TestCase { program, rpc_call_points })
        }
    }
}

/// One step of the merged execution sequence: a compiled network action,
/// or an out-of-band control-plane call querying the target's mempool
/// state.
#[derive(Clone, Debug, PartialEq, Eq)]
pub enum HybridAction {
    P2P(CompiledAction),
    RpcGetMempoolInfo,
}

/// Mathematical view of a [`HybridAction`].
#[verifier::ext_equal]
pub enum HybridActionV {
    P2P(CompiledActionV),
    RpcGetMempoolInfo,
}

impl View for HybridAction {
    type V = HybridActionV;

    open spec fn view(&self) -> HybridActionV {
        match self {
            HybridAction::P2P(a) => HybridActionV::P2P(a@),
            HybridAction::RpcGetMempoolInfo => HybridActionV::RpcGetMempoolInfo,
        }
    }
}

/// One control-plane call for each remaining insertion point that names
/// action index `idx`, in recording order.
pub open spec fn spec_rpcs_for(points: Seq<usize>, idx: usize) -> Seq<HybridActionV>
    decreases points.len(),
{
    if points.len() == 0 {
        seq![]
    } else {
        (if points[0] == idx {
            seq![HybridActionV::RpcGetMempoolInfo]
        } else {
            seq![]
        }) + spec_rpcs_for(points.skip(1), idx)
    }
}

/// One trailing control-plane call for each insertion point at or past
/// the end of the action sequence, in recording order.
pub open spec fn spec_tail_rpcs(points: Seq<usize>, len: nat) -> Seq<HybridActionV>
    decreases points.len(),
{
    if points.len() == 0 {
        seq![]
    } else {
        (if points[0] >= len {
            seq![HybridActionV::RpcGetMempoolInfo]
        } else {
            seq![]
        }) + spec_tail_rpcs(points.skip(1), len)
    }
}

/// The merged sequence from action index `i` on: the calls inserted
/// before each remaining action, the action itself, and the trailing
/// calls after the last action.
pub open spec fn spec_hybrid_from(actions: Seq<CompiledActionV>, points: Seq<usize>, i: int)
    -> Seq<HybridActionV>
    decreases actions.len() - i,
{
    if i < 0 || i >= actions.len() {
        spec_tail_rpcs(points, actions.len())
    } else {
        spec_rpcs_for(points, i as usize)
            + (seq![HybridActionV::P2P(actions[i])] + spec_hybrid_from(actions, points, i + 1))
    }
}

/// The whole merged execution sequence for a test case.
pub open spec fn spec_hybrid(actions: Seq<CompiledActionV>, points: Seq<usize>)
    -> Seq<HybridActionV> {
    spec_hybrid_from(actions, points, 0)
}

impl TestCase {
    /// Builds the interleaved sequence: one control-plane call before each
    /// action whose index matches an insertion point (duplicate points
    /// produce duplicate calls), and every point at or past the program's
    /// length as a trailing call after the last action, in their original
    /// relative order.
    pub fn build_hybrid_actions(&self) -> (r: Vec<HybridAction>)
        ensures
            r@.map_values(|h: HybridAction| h@)
                == spec_hybrid(self.program@.actions, self.rpc_call_points@),
    {
        let ghost actions = self.program@.actions;
        let ghost points = self.rpc_call_points@;
        let mut out: Vec<HybridAction> = Vec::new();
        let total = self.program.actions.len();
        let mut idx: usize = 0;
        while idx < total
            invariant
                idx <= total,
                total == actions.len(),
                actions == self.program@.actions,
                points == self.rpc_call_points@,
                spec_hybrid(actions, points) == out@.map_values(|h: HybridAction| h@)
                    + spec_hybrid_from(actions, points, idx as int),
            decreases total - idx,
        {
            let ghost before = out@.map_values(|h: HybridAction| h@);
            let mut j: usize = 0;
            assert(points.skip(0) =~= points);
            while j < self.rpc_call_points.len()
                invariant
                    j <= points.len(),
                    points == self.rpc_call_points@,
                    before + spec_rpcs_for(points, idx)
                        == out@.map_values(|h: HybridAction| h@)
                            + spec_rpcs_for(points.skip(j as int), idx),
                decreases points.len() - j,
            {
                if self.rpc_call_points[j] == idx {
                    let ghost outv = out@.map_values(|h: HybridAction| h@);
                    out.push(HybridAction::RpcGetMempoolInfo);
                    proof {
                        assert(out@.map_values(|h: HybridAction| h@)
                            =~= outv + seq![HybridActionV::RpcGetMempoolInfo]);
                    }
                }
                proof {
                    let rest = points.skip(j as int);
                    assert(rest[0] == points[j as int]);
                    assert(rest.skip(1) =~= points.skip(j + 1));
                    assert(before + spec_rpcs_for(points, idx)
                        =~= out@.map_values(|h: HybridAction| h@)
                            + spec_rpcs_for(points.skip(j + 1), idx));
                }
                j += 1;
            }
            proof {
                assert(points.skip(points.len() as int) =~= Seq::<usize>::empty());
                assert(out@.map_values(|h: HybridAction| h@)
                    =~= before + spec_rpcs_for(points, idx));
            }
            let ghost outv = out@.map_values(|h: HybridAction| h@);
            out.push(HybridAction::P2P(clone_action(&self.program.actions[idx])));
            proof {
                assert(self.program.actions@[idx as int]@ == actions[idx as int]);
                assert(out@.map_values(|h: HybridAction| h@)
                    =~= outv + seq![HybridActionV::P2P(actions[idx as int])]);
                assert(out@.map_values(|h: HybridAction| h@)
                    + spec_hybrid_from(actions, points, idx + 1)
                    =~= before + spec_hybrid_from(actions, points, idx as int));
            }
            idx += 1;
        }
        let ghost before_tail = out@.map_values(|h: HybridAction| h@);
        let mut j: usize = 0;
        assert(points.skip(0) =~= points);
        while j < self.rpc_call_points.len()
            invariant
                j <= points.len(),
                points == self.rpc_call_points@,
                total == actions.len(),
                before_tail + spec_tail_rpcs(points, actions.len())
                    == out@.map_values(|h: HybridAction| h@)
                        + spec_tail_rpcs(points.skip(j as int), actions.len()),
            decreases points.len() - j,
        {
            if self.rpc_call_points[j] >= total {
                let ghost outv = out@.map_values(|h: HybridAction| h@);
                out.push(HybridAction::RpcGetMempoolInfo);
                proof {
                    assert(out@.map_values(|h: HybridAction| h@)
                        =~= outv + seq![HybridActionV::RpcGetMempoolInfo]);
                }
            }
            proof {
                let rest = points.skip(j as int);
                assert(rest[0] == points[j as int]);
                assert(rest.skip(1) =~= points.skip(j + 1));
                assert(before_tail + spec_tail_rpcs(points, actions.len())
                    =~= out@.map_values(|h: HybridAction| h@)
                        + spec_tail_rpcs(points.skip(j + 1), actions.len()));
            }
            j += 1;
        }
        proof {
            assert(points.skip(points.len() as int) =~= Seq::<usize>::empty());
            assert(out@.map_values(|h: HybridAction| h@)
                =~= before_tail + spec_tail_rpcs(points, actions.len()));
        }
        out
    }
}


/// With the three insertion points `0`, `l` and `l + 5`, no call is
/// inserted before an action at a positive index.
proof fn lemma_three_points_inner(points: Seq<usize>, l: usize, lp5: usize, idx: usize)
    requires
        points == seq![0usize, l, lp5],
        l >= 1,
        lp5 == l + 5,
        1 <= idx < l,
    ensures
        spec_rpcs_for(points, idx) == Seq::<HybridActionV>::empty(),
{
    reveal_with_fuel(spec_rpcs_for, 5);
    assert(points.skip(1) =~= seq![l, lp5]);
    assert(seq![l, lp5].skip(1) =~= seq![lp5]);
    assert(seq![lp5].skip(1) =~= Seq::<usize>::empty());
    assert(spec_rpcs_for(points, idx) =~= Seq::<HybridActionV>::empty());
}

/// With the three insertion points `0`, `l` and `l + 5`, the merged
/// suffix from any positive action index is the remaining actions
/// followed by the two trailing calls.
proof fn lemma_three_points_suffix(
    actions: Seq<CompiledActionV>,
    points: Seq<usize>,
    l: usize,
    lp5: usize,
    i: int,
)
    requires
        actions.len() == l,
        points == seq![0usize, l, lp5],
        l >= 1,
        lp5 == l + 5,
        1 <= i <= l,
    ensures
        spec_hybrid_from(actions, points, i)
            == actions.skip(i).map_values(|a: CompiledActionV| HybridActionV::P2P(a))
                + seq![HybridActionV::RpcGetMempoolInfo, HybridActionV::RpcGetMempoolInfo],
    decreases l - i,
{
    if i == l {
        reveal_with_fuel(spec_tail_rpcs, 5);
        assert(points.skip(1) =~= seq![l, lp5]);
        assert(seq![l, lp5].skip(1) =~= seq![lp5]);
        assert(seq![lp5].skip(1) =~= Seq::<usize>::empty());
        assert(spec_tail_rpcs(points, actions.len())
            =~= seq![HybridActionV::RpcGetMempoolInfo, HybridActionV::RpcGetMempoolInfo]);
        assert(actions.skip(i).map_values(|a: CompiledActionV| HybridActionV::P2P(a))
            =~= Seq::<HybridActionV>::empty());
        assert(spec_hybrid_from(actions, points, i)
            =~= actions.skip(i).map_values(|a: CompiledActionV| HybridActionV::P2P(a))
                + seq![HybridActionV::RpcGetMempoolInfo, HybridActionV::RpcGetMempoolInfo]);
    } else {
        lemma_three_points_inner(points, l, lp5, i as usize);
        lemma_three_points_suffix(actions, points, l, lp5, i + 1);
        assert(actions.skip(i).map_values(|a: CompiledActionV| HybridActionV::P2P(a))
            =~= seq![HybridActionV::P2P(actions[i])]
                + actions.skip(i + 1).map_values(|a: CompiledActionV| HybridActionV::P2P(a)));
        assert(spec_hybrid_from(actions, points, i)
            =~= actions.skip(i).map_values(|a: CompiledActionV| HybridActionV::P2P(a))
                + seq![HybridActionV::RpcGetMempoolInfo, HybridActionV::RpcGetMempoolInfo]);
    }
}

/// Insertion-point semantics: merging a compiled program of length `l`
/// with the insertion points `0`, `l` and `l + 5` yields exactly three
/// control-plane calls: one before the first action, and two after the
/// last action, in their original relative order.
pub proof fn lemma_insertion_point_semantics(
    actions: Seq<CompiledActionV>,
    l: usize,
    lp5: usize,
)
    requires
        actions.len() == l,
        l >= 1,
        lp5 == l + 5,
    ensures
        spec_hybrid(actions, seq![0usize, l, lp5])
            == seq![HybridActionV::RpcGetMempoolInfo]
                + actions.map_values(|a: CompiledActionV| HybridActionV::P2P(a))
                + seq![HybridActionV::RpcGetMempoolInfo, HybridActionV::RpcGetMempoolInfo],
{
    let points = seq![0usize, l, lp5];
    reveal_with_fuel(spec_rpcs_for, 5);
    assert(points.skip(1) =~= seq![l, lp5]);
    assert(seq![l, lp5].skip(1) =~= seq![lp5]);
    assert(seq![lp5].skip(1) =~= Seq::<usize>::empty());
    assert(spec_rpcs_for(points, 0) =~= seq![HybridActionV::RpcGetMempoolInfo]);
    lemma_three_points_suffix(actions, points, l, lp5, 1);
    assert(actions.skip(0) =~= actions);
    assert(actions.map_values(|a: CompiledActionV| HybridActionV::P2P(a))
        =~= seq![HybridActionV::P2P(actions[0])]
            + actions.skip(1).map_values(|a: CompiledActionV| HybridActionV::P2P(a)));
    assert(spec_hybrid(actions, points)
        =~= seq![HybridActionV::RpcGetMempoolInfo]
            + actions.map_values(|a: CompiledActionV| HybridActionV::P2P(a))
            + seq![HybridActionV::RpcGetMempoolInfo, HybridActionV::RpcGetMempoolInfo]);
}

} // verus!
