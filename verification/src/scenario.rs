//! The computational half of scenario setup and execution: building the
//! program context and the resource tables from plain chain data,
//! resolving compiled connection indices against the live connection
//! count, the two-target synchronization decision, and the ordered,
//! short-circuiting combination of oracle verdicts.

use vstd::prelude::*;

use crate::ir::{Header, HeaderV, ProgramContext, Txo, TxoV};

verus! {

/// Blocks whose height is below this limit have mature, spendable
/// coinbase outputs.
pub const COINBASE_MATURITY_HEIGHT_LIMIT: u32 = 100;

/// Blocks whose height is above this limit count as late blocks whose
/// headers are offered to generation.
pub const LATE_BLOCK_HEIGHT_LIMIT: u32 = 190;

/// The value of every mature coinbase output, in the smallest unit.
pub const COINBASE_VALUE: u64 = 25 * 100_000_000;

/// What the scenario reads out of one block of the prepared chain: the
/// transaction id of its coinbase and its height.
#[derive(Clone, Debug, PartialEq, Eq)]
pub struct BlockInfo {
    pub coinbase_txid: Vec<u8>,
    pub height: u32,
}

/// Mathematical view of a [`BlockInfo`].
#[verifier::ext_equal]
pub struct BlockInfoV {
    pub coinbase_txid: Seq<u8>,
    pub height: u32,
}

impl View for BlockInfo {
    type V = BlockInfoV;

    open spec fn view(&self) -> BlockInfoV {
        BlockInfoV { coinbase_txid: self.coinbase_txid@, height: self.height }
    }
}

/// The anyone-can-spend locking script placed on every prepared coinbase
/// output.
pub open spec fn spec_op_true_script_pubkey() -> Seq<u8> {
    seq![
        0u8, 32, 74, 232, 21, 114, 240, 110, 27, 136, 253, 92, 237, 122, 26, 0, 9, 69, 67, 46,
        131, 225, 85, 30, 111, 114, 30, 233, 192, 11, 140, 195, 50, 96,
    ]
}

/// Executable mirror of [`spec_op_true_script_pubkey`].
pub fn op_true_script_pubkey() -> (r: Vec<u8>)
    ensures
        r@ == spec_op_true_script_pubkey(),
{
    let r = vec![
        0u8, 32, 74, 232, 21, 114, 240, 110, 27, 136, 253, 92, 237, 122, 26, 0u8, 9, 69, 67, 46,
        131, 225, 85, 30, 111, 114, 30, 233, 192, 11, 140, 195, 50, 96,
    ];
    assert(r@ =~= spec_op_true_script_pubkey());
    r
}

/// The context a program is generated for: a single simulated node, the
/// currently established connections, and the scenario's logical clock.
pub fn build_program_context(num_connections: usize, timestamp: u64) -> (r: ProgramContext)
    ensures
        r.num_nodes == 1,
        r.num_connections == num_connections,
        r.timestamp == timestamp,
{
    ProgramContext { num_nodes: 1, num_connections, timestamp }
}

/// The spendable output that one mature coinbase contributes to the
/// resource table.
pub open spec fn spec_txo_of(b: BlockInfoV) -> TxoV {
    TxoV {
        outpoint_txid: b.coinbase_txid,
        outpoint_vout: 0,
        value: COINBASE_VALUE,
        script_pubkey: spec_op_true_script_pubkey(),
        spending_script_sig: seq![],
        spending_witness: seq![seq![0x51u8]],
    }
}

/// The output table built from the prepared chain: one spendable coinbase
/// output per block below the maturity height limit, in chain order.
pub open spec fn spec_build_txos(blocks: Seq<BlockInfoV>) -> Seq<TxoV>
    decreases blocks.len(),
{
    if blocks.len() == 0 {
        seq![]
    } else {
        (if blocks[0].height < COINBASE_MATURITY_HEIGHT_LIMIT {
            seq![spec_txo_of(blocks[0])]
        } else {
            seq![]
        }) + spec_build_txos(blocks.skip(1))
    }
}

/// Builds the spendable-output table, exactly as [`spec_build_txos`]
/// describes.
pub fn build_txos(blocks: &Vec<BlockInfo>) -> (r: Vec<Txo>)
    ensures
        r@.map_values(|t: Txo| t@)
            == spec_build_txos(blocks@.map_values(|b: BlockInfo| b@)),
{
    let ghost bv = blocks@.map_values(|b: BlockInfo| b@);
    let mut out: Vec<Txo> = Vec::new();
    let mut i: usize = 0;
    assert(bv.skip(0) =~= bv);
    while i < blocks.len()
        invariant
            i <= blocks@.len(),
            bv == blocks@.map_values(|b: BlockInfo| b@),
            spec_build_txos(bv) == out@.map_values(|t: Txo| t@)
                + spec_build_txos(bv.skip(i as int)),
        decreases blocks@.len() - i,
    {
        if blocks[i].height < COINBASE_MATURITY_HEIGHT_LIMIT {
            let mut txid: Vec<u8> = Vec::new();
            let src = &blocks[i].coinbase_txid;
            let mut k: usize = 0;
            while k < src.len()
                invariant
                    k <= src@.len(),
                    txid@ == src@.subrange(0, k as int),
                decreases src@.len() - k,
            {
                txid.push(src[k]);
                assert(txid@ =~= src@.subrange(0, k + 1 as int));
                k += 1;
            }
            assert(txid@ =~= src@);
            let mut witness: Vec<Vec<u8>> = Vec::new();
            let mut witness_item: Vec<u8> = Vec::new();
            witness_item.push(0x51);
            witness.push(witness_item);
            let txo = Txo {
                outpoint_txid: txid,
                outpoint_vout: 0,
                value: COINBASE_VALUE,
                script_pubkey: op_true_script_pubkey(),
                spending_script_sig: Vec::new(),
                spending_witness: witness,
            };
            let ghost outv = out@.map_values(|t: Txo| t@);
            assert(txo@ =~= spec_txo_of(bv[i as int]));
            out.push(txo);
            proof {
                assert(out@.map_values(|t: Txo| t@) =~= outv + seq![spec_txo_of(bv[i as int])]);
            }
        }
        proof {
            let rest = bv.skip(i as int);
            assert(rest[0] == bv[i as int]);
            assert(rest.skip(1) =~= bv.skip(i + 1));
            assert(spec_build_txos(bv) =~= out@.map_values(|t: Txo| t@)
                + spec_build_txos(bv.skip(i + 1)));
        }
        i += 1;
    }
    proof {
        assert(bv.skip(blocks@.len() as int) =~= Seq::<BlockInfoV>::empty());
        assert(out@.map_values(|t: Txo| t@) =~= spec_build_txos(bv));
    }
    out
}

/// The header table built from the prepared chain: every header above the
/// late-block height limit, in chain order.
pub open spec fn spec_build_headers(headers: Seq<HeaderV>) -> Seq<HeaderV>
    decreases headers.len(),
{
    if headers.len() == 0 {
        seq![]
    } else {
        (if headers[0].height > LATE_BLOCK_HEIGHT_LIMIT {
            seq![headers[0]]
        } else {
            seq![]
        }) + spec_build_headers(headers.skip(1))
    }
}

/// An exact copy of a header.
fn clone_header(h: &Header) -> (r: Header)
    ensures
        r@ == h@,
{
    let mut prev: Vec<u8> = Vec::new();
    let mut k: usize = 0;
    while k < h.prev.len()
        invariant
            k <= h.prev@.len(),
            prev@ == h.prev@.subrange(0, k as int),
        decreases h.prev@.len() - k,
    {
        prev.push(h.prev[k]);
        assert(prev@ =~= h.prev@.subrange(0, k + 1 as int));
        k += 1;
    }
    assert(prev@ =~= h.prev@);
    let mut merkle_root: Vec<u8> = Vec::new();
    let mut j: usize = 0;
    while j < h.merkle_root.len()
        invariant
            j <= h.merkle_root@.len(),
            merkle_root@ == h.merkle_root@.subrange(0, j as int),
        decreases h.merkle_root@.len() - j,
    {
        merkle_root.push(h.merkle_root[j]);
        assert(merkle_root@ =~= h.merkle_root@.subrange(0, j + 1 as int));
        j += 1;
    }
    assert(merkle_root@ =~= h.merkle_root@);
    Header {
        prev,
        merkle_root,
        nonce: h.nonce,
        bits: h.bits,
        time: h.time,
        version: h.version,
        height: h.height,
    }
}

/// Builds the known-header table, exactly as [`spec_build_headers`]
/// describes.
pub fn build_headers(headers: &Vec<Header>) -> (r: Vec<Header>)
    ensures
        r@.map_values(|h: Header| h@)
            == spec_build_headers(headers@.map_values(|h: Header| h@)),
{
    let ghost hv = headers@.map_values(|h: Header| h@);
    let mut out: Vec<Header> = Vec::new();
    let mut i: usize = 0;
    assert(hv.skip(0) =~= hv);
    while i < headers.len()
        invariant
            i <= headers@.len(),
            hv == headers@.map_values(|h: Header| h@),
            spec_build_headers(hv) == out@.map_values(|h: Header| h@)
                + spec_build_headers(hv.skip(i as int)),
        decreases headers@.len() - i,
    {
        if headers[i].height > LATE_BLOCK_HEIGHT_LIMIT {
            let ghost outv = out@.map_values(|h: Header| h@);
            let copy = clone_header(&headers[i]);
            out.push(copy);
            proof {
                assert(out@.map_values(|h: Header| h@) =~= outv + seq![hv[i as int]]);
            }
        }
        proof {
            let rest = hv.skip(i as int);
            assert(rest[0] == hv[i as int]);
            assert(rest.skip(1) =~= hv.skip(i + 1));
            assert(spec_build_headers(hv) =~= out@.map_values(|h: Header| h@)
                + spec_build_headers(hv.skip(i + 1)));
        }
        i += 1;
    }
    proof {
        assert(hv.skip(headers@.len() as int) =~= Seq::<HeaderV>::empty());
        assert(out@.map_values(|h: Header| h@) =~= spec_build_headers(hv));
    }
    out
}

/// Which live connection a compiled action's connection index selects:
/// the index modulo the live connection count, so an out-of-range index
/// aliases gracefully instead of failing; with no live connection the
/// dispatch is skipped.
pub fn resolve_connection(connection: u64, num_connections: usize) -> (r: Option<usize>)
    ensures
        match r {
            Some(k) => {
                &&& num_connections > 0
                &&& k == connection % (num_connections as u64)
                &&& k < num_connections
            },
            None => num_connections == 0,
        },
{
    if num_connections == 0 {
        return None;
    }
    let k = connection % (num_connections as u64);
    Some(k as usize)
}

/// Whether two byte strings hold identical bytes.
fn bytes_eq(p: &Vec<u8>, q: &Vec<u8>) -> (r: bool)
    ensures
        r == (p@ == q@),
{
    if p.len() != q.len() {
        assert(p@ != q@);
        return false;
    }
    let mut i: usize = 0;
    while i < p.len()
        invariant
            i <= p@.len(),
            p@.len() == q@.len(),
            forall|j: int| 0 <= j < i ==> p@[j] == q@[j],
        decreases p@.len() - i,
    {
        if p[i] != q[i] {
            assert(p@[i as int] != q@[i as int]);
            return false;
        }
        i += 1;
    }
    assert(p@ =~= q@);
    true
}

/// Whether two reported chain tips count as synchronized: the primary tip
/// is known and the reference tip is the identical hash.
pub fn tips_synced(primary: &Option<Vec<u8>>, reference: &Option<Vec<u8>>) -> (r: bool)
    ensures
        r == match (primary, reference) {
            (Some(p), Some(q)) => p@ == q@,
            _ => false,
        },
{
    let p = match primary {
        Some(p) => p,
        None => {
            return false;
        },
    };
    let q = match reference {
        Some(q) => q,
        None => {
            return false;
        },
    };
    bytes_eq(p, q)
}

/// One oracle's verdict on the finished run.
#[derive(Clone, Debug, PartialEq, Eq)]
pub enum OracleOutcome {
    Pass,
    Fail(String),
}

/// Mathematical view of an [`OracleOutcome`].
#[verifier::ext_equal]
pub enum OracleOutcomeV {
    Pass,
    Fail(Seq<char>),
}

impl View for OracleOutcome {
    type V = OracleOutcomeV;

    open spec fn view(&self) -> OracleOutcomeV {
        match self {
            OracleOutcome::Pass => OracleOutcomeV::Pass,
            OracleOutcome::Fail(m) => OracleOutcomeV::Fail(m@),
        }
    }
}

/// The run's overall result.
#[derive(Clone, Debug, PartialEq, Eq)]
pub enum ScenarioResult {
    Passed,
    Failed(String),
}

/// Mathematical view of a [`ScenarioResult`].
#[verifier::ext_equal]
pub enum ScenarioResultV {
    Passed,
    Failed(Seq<char>),
}

impl View for ScenarioResult {
    type V = ScenarioResultV;

    open spec fn view(&self) -> ScenarioResultV {
        match self {
            ScenarioResult::Passed => ScenarioResultV::Passed,
            ScenarioResult::Failed(m) => ScenarioResultV::Failed(m@),
        }
    }
}

/// The diagnostic of the first failing verdict, if any verdict failed.
pub open spec fn spec_first_fail(os: Seq<OracleOutcomeV>) -> Option<Seq<char>>
    decreases os.len(),
{
    if os.len() == 0 {
        None
    } else {
        match os[0] {
            OracleOutcomeV::Pass => spec_first_fail(os.skip(1)),
            OracleOutcomeV::Fail(m) => Some(m),
        }
    }
}

/// Combines the oracle verdicts in their evaluation order, short
/// circuiting on the first failure: the run fails with the first failing
/// oracle's diagnostic, and passes only when every oracle passed.
pub fn evaluate_oracles(outcomes: Vec<OracleOutcome>) -> (r: ScenarioResult)
    ensures
        match r@ {
            ScenarioResultV::Passed =>
                spec_first_fail(outcomes@.map_values(|o: OracleOutcome| o@)) is None,
            ScenarioResultV::Failed(m) =>
                spec_first_fail(outcomes@.map_values(|o: OracleOutcome| o@)) == Some(m),
        },
{
    let ghost all = outcomes@.map_values(|o: OracleOutcome| o@);
    let mut rest = outcomes;
    assert(all.skip(0) =~= all);
    while rest.len() > 0
        invariant
            all == outcomes@.map_values(|o: OracleOutcome| o@),
            spec_first_fail(all)
                == spec_first_fail(rest@.map_values(|o: OracleOutcome| o@)),
        decreases rest@.len(),
    {
        let ghost before = rest@.map_values(|o: OracleOutcome| o@);
        let head = rest.remove(0);
        proof {
            assert(rest@.map_values(|o: OracleOutcome| o@) =~= before.skip(1));
            assert(before[0] == head@);
        }
        match head {
            OracleOutcome::Pass => {},
            OracleOutcome::Fail(m) => {
                return ScenarioResult::Failed(m);
            },
        }
    }
    assert(rest@.map_values(|o: OracleOutcome| o@) =~= Seq::<OracleOutcomeV>::empty());
    ScenarioResult::Passed
}

} // verus!
