use rand::SeedableRng;
use rand::rngs::StdRng;

use fuzzamoto_ir::builder::{BuilderError, ProgramBuilder};
use fuzzamoto_ir::compiler::{CompiledAction, Compiler, CMD_GET_TEMPLATE, CMD_TEMPLATE};
use fuzzamoto_ir::generators::{GeneratorError, GetTemplateGenerator, TemplateGenerator};
use fuzzamoto_ir::ir::{Instruction, Operation, PerTestcaseMetadata, Program,
    ProgramContext, RequestEvent, Txo, VarKind};

fn ctx(num_connections: usize) -> ProgramContext {
    ProgramContext { num_nodes: 1, num_connections, timestamp: 1_000 }
}

fn rng() -> StdRng {
    StdRng::seed_from_u64(7)
}

#[test]
fn append_keeps_causal_ordering() {
    let mut b = ProgramBuilder::new(ctx(2));
    let conn = b
        .append(Instruction { operation: Operation::LoadConnection(0), inputs: vec![] })
        .unwrap()
        .unwrap();
    assert_eq!(conn.index, 0);
    assert_eq!(conn.kind, VarKind::Connection);
    let ok = b.append(Instruction {
        operation: Operation::SendGetTemplate,
        inputs: vec![conn.index],
    });
    assert!(ok.is_ok());
    let p = b.finalize();
    for (j, instr) in p.instructions.iter().enumerate() {
        for &input in &instr.inputs {
            assert!(input < j);
        }
    }
}

#[test]
fn append_rejects_forward_reference() {
    let mut b = ProgramBuilder::new(ctx(1));
    let r = b.append(Instruction { operation: Operation::SendGetTemplate, inputs: vec![0] });
    assert_eq!(r, Err(BuilderError::TypeError));
    assert_eq!(b.instructions.len(), 0);
}

#[test]
fn append_rejects_wrong_kind_and_arity() {
    let mut b = ProgramBuilder::new(ctx(1));
    b.append(Instruction { operation: Operation::LoadConnection(0), inputs: vec![] })
        .unwrap();
    // a connection where a template is required
    let r = b.append(Instruction { operation: Operation::SendTemplate, inputs: vec![0, 0] });
    assert_eq!(r, Err(BuilderError::TypeError));
    // arity mismatch
    let r = b.append(Instruction { operation: Operation::SendGetTemplate, inputs: vec![] });
    assert_eq!(r, Err(BuilderError::TypeError));
    assert_eq!(b.instructions.len(), 1);
}

#[test]
fn load_connection_needs_connections() {
    let mut b = ProgramBuilder::new(ctx(0));
    let r = b.append(Instruction { operation: Operation::LoadConnection(0), inputs: vec![] });
    assert_eq!(r, Err(BuilderError::TypeError));
}

#[test]
fn get_or_create_connection_reuses_or_creates() {
    let mut b = ProgramBuilder::new(ctx(3));
    let mut r = rng();
    let v1 = b.get_or_create_random_connection(&mut r).unwrap();
    assert_eq!(b.instructions.len(), 1);
    assert_eq!(v1.kind, VarKind::Connection);
    let v2 = b.get_or_create_random_connection(&mut r).unwrap();
    // an existing connection variable is reused, nothing new is appended
    assert_eq!(b.instructions.len(), 1);
    assert_eq!(v2.index, v1.index);

    let mut empty = ProgramBuilder::new(ctx(0));
    assert!(empty.get_or_create_random_connection(&mut r).is_none());
    assert_eq!(empty.instructions.len(), 0);
}

#[test]
fn gettemplate_generator_rejects_empty_context() {
    let gen = GetTemplateGenerator::new();
    let mut b = ProgramBuilder::new(ctx(0));
    let mut r = rng();
    let res = gen.generate(&mut b, &mut r, None);
    assert_eq!(res, Err(GeneratorError::InvalidContext(ctx(0))));
    assert_eq!(b.instructions.len(), 0);
}

#[test]
fn gettemplate_generator_appends_request() {
    let gen = GetTemplateGenerator::new();
    assert_eq!(gen.name(), "GetTemplateGenerator");
    let mut b = ProgramBuilder::new(ctx(2));
    let mut r = rng();
    gen.generate(&mut b, &mut r, None).unwrap();
    let last = b.instructions.last().unwrap();
    assert_eq!(last.operation, Operation::SendGetTemplate);
    assert_eq!(last.inputs.len(), 1);
}

#[test]
fn template_generator_answers_recorded_request() {
    let gen = TemplateGenerator::new();
    assert_eq!(gen.name(), "TemplateGenerator");
    let mut b = ProgramBuilder::new(ctx(2));
    b.append(Instruction { operation: Operation::LoadConnection(1), inputs: vec![] })
        .unwrap();
    b.append(Instruction { operation: Operation::SendGetTemplate, inputs: vec![0] })
        .unwrap();
    // the request was triggered by instruction 1 and arrived on the
    // connection variable at index 0
    let meta = PerTestcaseMetadata {
        template_requests: vec![RequestEvent {
            triggering_instruction_index: 1,
            connection_index: 0,
        }],
        block_txn_requests: vec![],
    };
    let mut r = rng();
    gen.generate(&mut b, &mut r, Some(&meta)).unwrap();
    assert_eq!(b.instructions.len(), 4);
    assert_eq!(b.instructions[2].operation, Operation::BuildTemplate);
    assert_eq!(b.instructions[2].inputs, Vec::<usize>::new());
    assert_eq!(b.instructions[3].operation, Operation::SendTemplate);
    // the send is addressed to the recorded connection, and consumes the
    // template built right before it
    assert_eq!(b.instructions[3].inputs, vec![0, 2]);
}

#[test]
fn template_generator_no_match_is_a_noop() {
    let gen = TemplateGenerator::new();
    let mut b = ProgramBuilder::new(ctx(2));
    b.append(Instruction { operation: Operation::LoadConnection(0), inputs: vec![] })
        .unwrap();
    b.append(Instruction { operation: Operation::SendGetTemplate, inputs: vec![0] })
        .unwrap();
    let meta = PerTestcaseMetadata {
        template_requests: vec![RequestEvent {
            triggering_instruction_index: 7,
            connection_index: 0,
        }],
        block_txn_requests: vec![],
    };
    let mut r = rng();
    assert_eq!(gen.generate(&mut b, &mut r, Some(&meta)), Ok(()));
    assert_eq!(b.instructions.len(), 2);
}

#[test]
fn template_generator_rejects_misaligned_metadata() {
    let gen = TemplateGenerator::new();
    let mut b = ProgramBuilder::new(ctx(2));
    b.append(Instruction { operation: Operation::LoadConnection(0), inputs: vec![] })
        .unwrap();
    // the last instruction is not a template request
    let meta = PerTestcaseMetadata {
        template_requests: vec![RequestEvent {
            triggering_instruction_index: 0,
            connection_index: 0,
        }],
        block_txn_requests: vec![],
    };
    let mut r = rng();
    assert_eq!(
        gen.generate(&mut b, &mut r, Some(&meta)),
        Err(GeneratorError::CorruptedMetadata)
    );
    assert_eq!(b.instructions.len(), 1);
}

#[test]
fn template_generator_choose_index_follows_feedback() {
    let gen = TemplateGenerator::new();
    let mut b = ProgramBuilder::new(ctx(1));
    b.append(Instruction { operation: Operation::LoadConnection(0), inputs: vec![] })
        .unwrap();
    b.append(Instruction { operation: Operation::SendGetTemplate, inputs: vec![0] })
        .unwrap();
    b.append(Instruction { operation: Operation::SetTime(9), inputs: vec![] })
        .unwrap();
    let program = b.finalize();
    let meta = PerTestcaseMetadata {
        template_requests: vec![],
        block_txn_requests: vec![RequestEvent {
            triggering_instruction_index: 1,
            connection_index: 0,
        }],
    };
    let mut r = rng();
    assert_eq!(gen.choose_index(&program, &mut r, Some(&meta)), Some(2));
}

#[test]
fn compile_lowers_protocol_operations() {
    let mut b = ProgramBuilder::new(ctx(2));
    b.append(Instruction { operation: Operation::LoadConnection(1), inputs: vec![] })
        .unwrap();
    b.append(Instruction { operation: Operation::SendGetTemplate, inputs: vec![0] })
        .unwrap();
    b.append(Instruction { operation: Operation::SetTime(42), inputs: vec![] })
        .unwrap();
    b.append(Instruction { operation: Operation::BuildTemplate, inputs: vec![] })
        .unwrap();
    b.append(Instruction { operation: Operation::SendTemplate, inputs: vec![0, 3] })
        .unwrap();
    let program = b.finalize();

    let txos = vec![Txo {
        outpoint_txid: vec![0xaa, 0xbb],
        outpoint_vout: 0,
        value: 50,
        script_pubkey: vec![0x51],
        spending_script_sig: vec![],
        spending_witness: vec![],
    }];
    let compiler = Compiler::with_txos(txos);
    let compiled = compiler.compile(&program).unwrap();
    assert_eq!(compiled.actions.len(), 3);
    assert_eq!(
        compiled.actions[0],
        CompiledAction::SendRawMessage {
            connection: 1,
            command: CMD_GET_TEMPLATE,
            payload: vec![],
        }
    );
    assert_eq!(compiled.actions[1], CompiledAction::SetTime(42));
    // the template content is the concatenation of the table's txids
    assert_eq!(
        compiled.actions[2],
        CompiledAction::SendRawMessage {
            connection: 1,
            command: CMD_TEMPLATE,
            payload: vec![0xaa, 0xbb],
        }
    );
}

#[test]
fn compile_rejects_ill_formed_program() {
    let program = Program {
        instructions: vec![Instruction {
            operation: Operation::SendGetTemplate,
            inputs: vec![0],
        }],
        context: ctx(1),
    };
    let compiler = Compiler::new();
    assert!(compiler.compile(&program).is_err());
}
