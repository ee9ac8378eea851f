use fuzzamoto_ir::codec::{dec_u32, dec_u64, enc_u32, enc_u64};
use fuzzamoto_ir::compiler::{CompiledAction, CompiledProgram, CMD_TEMPLATE};
use fuzzamoto_ir::ir::{FullProgramContext, Header, Instruction, Operation, Program,
    ProgramContext, Txo};
use fuzzamoto_ir::progwire::{dec_compiled, dec_program, encode_compiled, encode_program};
use fuzzamoto_ir::scenario::{build_headers, build_program_context, build_txos,
    evaluate_oracles, resolve_connection, tips_synced, BlockInfo, OracleOutcome,
    ScenarioResult, COINBASE_VALUE};
use fuzzamoto_ir::scheduler::{DecodeError, HybridAction, TestCase};
use fuzzamoto_ir::tables::{decode_full_context, encode_full_context};

fn sample_header(height: u32) -> Header {
    Header {
        prev: vec![1; 32],
        merkle_root: vec![2; 32],
        nonce: 7,
        bits: 0x1d00ffff,
        time: 1_600_000_000,
        version: 0x20000000,
        height,
    }
}

fn sample_txo() -> Txo {
    Txo {
        outpoint_txid: vec![9; 32],
        outpoint_vout: 0,
        value: COINBASE_VALUE,
        script_pubkey: vec![0, 32, 74],
        spending_script_sig: vec![],
        spending_witness: vec![vec![0x51]],
    }
}

#[test]
fn u64_encodes_little_endian() {
    let mut out = Vec::new();
    enc_u64(0x0102030405060708, &mut out);
    assert_eq!(out, vec![8, 7, 6, 5, 4, 3, 2, 1]);
    assert_eq!(dec_u64(&out, 0), Some((0x0102030405060708, 8)));
    assert_eq!(dec_u64(&out, 1), None);
}

#[test]
fn u32_encodes_little_endian() {
    let mut out = Vec::new();
    enc_u32(0xdeadbeef, &mut out);
    assert_eq!(out, vec![0xef, 0xbe, 0xad, 0xde]);
    assert_eq!(dec_u32(&out, 0), Some((0xdeadbeef, 4)));
}

#[test]
fn full_context_round_trips() {
    let bundle = FullProgramContext {
        context: ProgramContext { num_nodes: 1, num_connections: 3, timestamp: 1_234_567 },
        txos: vec![sample_txo(), sample_txo()],
        headers: vec![sample_header(191), sample_header(250)],
    };
    let bytes = encode_full_context(&bundle);
    let decoded = decode_full_context(&bytes).unwrap();
    assert_eq!(decoded, bundle);
}

#[test]
fn full_context_decode_rejects_trailing_garbage() {
    let bundle = FullProgramContext {
        context: ProgramContext { num_nodes: 1, num_connections: 0, timestamp: 0 },
        txos: vec![],
        headers: vec![],
    };
    let mut bytes = encode_full_context(&bundle);
    bytes.push(0);
    assert!(decode_full_context(&bytes).is_none());
}

fn four_instruction_program() -> Program {
    Program {
        instructions: vec![
            Instruction { operation: Operation::LoadConnection(2), inputs: vec![] },
            Instruction { operation: Operation::SendGetTemplate, inputs: vec![0] },
            Instruction { operation: Operation::SetTime(5), inputs: vec![] },
            Instruction { operation: Operation::SetTime(6), inputs: vec![] },
        ],
        context: ProgramContext { num_nodes: 1, num_connections: 4, timestamp: 0 },
    }
}

#[test]
fn program_round_trips() {
    let program = four_instruction_program();
    let bytes = encode_program(&program);
    let (decoded, used) = dec_program(&bytes, 0).unwrap();
    assert_eq!(used, bytes.len());
    assert_eq!(decoded, program);
}

fn four_action_compiled() -> CompiledProgram {
    CompiledProgram {
        actions: vec![
            CompiledAction::SetTime(1),
            CompiledAction::SendRawMessage {
                connection: 0,
                command: CMD_TEMPLATE,
                payload: vec![1, 2, 3],
            },
            CompiledAction::SetTime(2),
            CompiledAction::SetTime(3),
        ],
    }
}

#[test]
fn compiled_program_round_trips() {
    let cp = four_action_compiled();
    let bytes = encode_compiled(&cp);
    let (decoded, used) = dec_compiled(&bytes, 0).unwrap();
    assert_eq!(used, bytes.len());
    assert_eq!(decoded, cp);
}

#[test]
fn decode_rejects_empty_input() {
    assert_eq!(TestCase::decode(&[], false), Err(DecodeError::EmptyInput));
    assert_eq!(TestCase::decode(&[], true), Err(DecodeError::EmptyInput));
}

#[test]
fn decode_rejects_malformed_trailing_segment() {
    // one insertion point, then bytes that are no compiled program
    assert_eq!(
        TestCase::decode(&[1, 5, 0xff, 0xff], false),
        Err(DecodeError::MalformedProgram)
    );
}

#[test]
fn decode_is_deterministic() {
    let mut input = vec![2, 5, 100];
    input.extend_from_slice(&encode_compiled(&four_action_compiled()));
    let a = TestCase::decode(&input, false).unwrap();
    let b = TestCase::decode(&input, false).unwrap();
    assert_eq!(a, b);
}

#[test]
fn end_to_end_trailing_insertion_points() {
    // raw input: first byte names two insertion points, 5 and 100, then
    // the encoded program follows
    let mut input = vec![2, 5, 100];
    input.extend_from_slice(&encode_compiled(&four_action_compiled()));
    let tc = TestCase::decode(&input, false).unwrap();
    assert_eq!(tc.rpc_call_points, vec![5, 100]);
    assert_eq!(tc.program.actions.len(), 4);

    let merged = tc.build_hybrid_actions();
    // both points lie at or past the program's length, so both calls
    // trail the four actions, keeping their relative order
    assert_eq!(merged.len(), 6);
    for k in 0..4 {
        assert!(matches!(merged[k], HybridAction::P2P(_)));
    }
    assert!(matches!(merged[4], HybridAction::RpcGetMempoolInfo));
    assert!(matches!(merged[5], HybridAction::RpcGetMempoolInfo));
}

#[test]
fn decode_compiles_symbolic_program() {
    let mut input = vec![0];
    input.extend_from_slice(&encode_program(&four_instruction_program()));
    let tc = TestCase::decode(&input, true).unwrap();
    assert_eq!(tc.rpc_call_points, Vec::<usize>::new());
    assert_eq!(tc.program.actions.len(), 3);
    assert_eq!(tc.program.actions[2], CompiledAction::SetTime(6));
}

#[test]
fn insertion_points_bracket_the_actions() {
    let tc = TestCase {
        program: four_action_compiled(),
        rpc_call_points: vec![0, 4, 9],
    };
    let merged = tc.build_hybrid_actions();
    assert_eq!(merged.len(), 7);
    assert!(matches!(merged[0], HybridAction::RpcGetMempoolInfo));
    for k in 1..5 {
        assert!(matches!(merged[k], HybridAction::P2P(_)));
    }
    assert!(matches!(merged[5], HybridAction::RpcGetMempoolInfo));
    assert!(matches!(merged[6], HybridAction::RpcGetMempoolInfo));
}

#[test]
fn duplicate_insertion_points_duplicate_calls() {
    let tc = TestCase {
        program: four_action_compiled(),
        rpc_call_points: vec![1, 1],
    };
    let merged = tc.build_hybrid_actions();
    assert_eq!(merged.len(), 6);
    assert!(matches!(merged[1], HybridAction::RpcGetMempoolInfo));
    assert!(matches!(merged[2], HybridAction::RpcGetMempoolInfo));
}

#[test]
fn program_context_counts_connections() {
    let c = build_program_context(5, 99);
    assert_eq!(c.num_nodes, 1);
    assert_eq!(c.num_connections, 5);
    assert_eq!(c.timestamp, 99);
}

#[test]
fn txos_come_from_mature_coinbases_only() {
    let blocks = vec![
        BlockInfo { coinbase_txid: vec![1; 32], height: 10 },
        BlockInfo { coinbase_txid: vec![2; 32], height: 100 },
        BlockInfo { coinbase_txid: vec![3; 32], height: 99 },
    ];
    let txos = build_txos(&blocks);
    assert_eq!(txos.len(), 2);
    assert_eq!(txos[0].outpoint_txid, vec![1; 32]);
    assert_eq!(txos[0].outpoint_vout, 0);
    assert_eq!(txos[0].value, COINBASE_VALUE);
    assert_eq!(txos[0].spending_witness, vec![vec![0x51]]);
    assert_eq!(txos[1].outpoint_txid, vec![3; 32]);
}

#[test]
fn headers_come_from_late_blocks_only() {
    let headers = vec![sample_header(190), sample_header(191), sample_header(300)];
    let late = build_headers(&headers);
    assert_eq!(late.len(), 2);
    assert_eq!(late[0].height, 191);
    assert_eq!(late[1].height, 300);
}

#[test]
fn connection_indices_wrap_modulo() {
    assert_eq!(resolve_connection(7, 3), Some(1));
    assert_eq!(resolve_connection(2, 3), Some(2));
    assert_eq!(resolve_connection(5, 0), None);
}

#[test]
fn tips_synced_needs_identical_known_tips() {
    let a = Some(vec![1, 2, 3]);
    let b = Some(vec![1, 2, 3]);
    let c = Some(vec![1, 2, 4]);
    assert!(tips_synced(&a, &b));
    assert!(!tips_synced(&a, &c));
    assert!(!tips_synced(&None, &b));
    assert!(!tips_synced(&a, &None));
}

#[test]
fn first_failing_oracle_wins() {
    let r = evaluate_oracles(vec![
        OracleOutcome::Pass,
        OracleOutcome::Fail(String::from("partition")),
        OracleOutcome::Fail(String::from("consensus")),
    ]);
    assert_eq!(r, ScenarioResult::Failed(String::from("partition")));

    let ok = evaluate_oracles(vec![OracleOutcome::Pass, OracleOutcome::Pass]);
    assert_eq!(ok, ScenarioResult::Passed);
}
