//! Lowering of a symbolic program into an ordered list of concrete,
//! directly executable actions. A single forward pass resolves every
//! variable to its materialized value; protocol-control operations lower
//! to actions, data-construction operations only bind values consumed by a
//! later send. Compilation is all-or-nothing: an ill-formed program yields
//! an error and no partial output.

use vstd::prelude::*;

use crate::ir::{Program, ProgramV, Operation, Txo, TxoV, VarKind, instr_ok, program_wf};

verus! {

/// Command tag of a message asking the peer for a block template.
pub const CMD_GET_TEMPLATE: u8 = 1;

/// Command tag of a message carrying a block template.
pub const CMD_TEMPLATE: u8 = 2;

/// A concrete, directly executable step with no remaining symbolic
/// references.
#[derive(Clone, Debug, PartialEq, Eq)]
pub enum CompiledAction {
    /// Send exactly these bytes, under this command tag, on the connection
    /// with this index (taken modulo the live connection count at
    /// execution time).
    SendRawMessage { connection: u64, command: u8, payload: Vec<u8> },
    /// Advance the target's simulated clock to this timestamp.
    SetTime(u64),
}

/// Mathematical view of a [`CompiledAction`].
#[verifier::ext_equal]
pub enum CompiledActionV {
    SendRawMessage { connection: u64, command: u8, payload: Seq<u8> },
    SetTime(u64),
}

impl View for CompiledAction {
    type V = CompiledActionV;

    open spec fn view(&self) -> CompiledActionV {
        match self {
            CompiledAction::SendRawMessage { connection, command, payload } =>
                CompiledActionV::SendRawMessage {
                    connection: *connection,
                    command: *command,
                    payload: payload@,
                },
            CompiledAction::SetTime(t) => CompiledActionV::SetTime(*t),
        }
    }
}

/// The compiler's output: an ordered action list, owned exclusively by the
/// scheduler during execution.
#[derive(Clone, Debug, PartialEq, Eq)]
pub struct CompiledProgram {
    pub actions: Vec<CompiledAction>,
}

/// Mathematical view of a [`CompiledProgram`].
#[verifier::ext_equal]
pub struct CompiledProgramV {
    pub actions: Seq<CompiledActionV>,
}

impl View for CompiledProgram {
    type V = CompiledProgramV;

    open spec fn view(&self) -> CompiledProgramV {
        CompiledProgramV { actions: self.actions@.map_values(|a: CompiledAction| a@) }
    }
}

/// Why lowering was refused: the program referenced a variable that is not
/// bound at that point, an input of the wrong kind, an arity mismatch, or
/// an operation whose context precondition fails.
#[derive(Clone, Copy, Debug, PartialEq, Eq, Structural)]
pub enum CompileError {
    IllFormedProgram,
}

/// A variable's concrete materialized value during lowering.
#[derive(Clone, Debug, PartialEq, Eq)]
pub enum CompiledValue {
    Connection(u64),
    Template(Vec<u8>),
}

/// Mathematical view of a [`CompiledValue`].
#[verifier::ext_equal]
pub enum CompiledValueV {
    Connection(u64),
    Template(Seq<u8>),
}

impl View for CompiledValue {
    type V = CompiledValueV;

    open spec fn view(&self) -> CompiledValueV {
        match self {
            CompiledValue::Connection(k) => CompiledValueV::Connection(*k),
            CompiledValue::Template(b) => CompiledValueV::Template(b@),
        }
    }
}

/// The concrete content of a template built from the resource table: the
/// outpoint transaction ids of every known spendable output, concatenated.
pub open spec fn spec_template_payload(txos: Seq<TxoV>) -> Seq<u8>
    decreases txos.len(),
{
    if txos.len() == 0 {
        seq![]
    } else {
        txos[0].outpoint_txid + spec_template_payload(txos.skip(1))
    }
}

/// The value bound by the instruction at `j`, if its operation produces
/// one. Producers are self-contained: a connection handle carries its own
/// index and a template is built from the resource table alone.
pub open spec fn spec_value_of(p: ProgramV, txos: Seq<TxoV>, j: int) -> Option<CompiledValueV> {
    match p.instructions[j].operation {
        Operation::LoadConnection(k) => Some(CompiledValueV::Connection(k)),
        Operation::BuildTemplate => Some(CompiledValueV::Template(spec_template_payload(txos))),
        _ => None,
    }
}

/// The connection index that the variable produced at position `c`
/// resolves to.
pub open spec fn spec_conn_value(p: ProgramV, c: int) -> u64 {
    match p.instructions[c].operation {
        Operation::LoadConnection(k) => k,
        _ => arbitrary(),
    }
}

/// The action emitted for the instruction at `j`, if it is a
/// protocol-control operation; data-construction operations emit none.
pub open spec fn spec_action_of(p: ProgramV, txos: Seq<TxoV>, j: int) -> Option<CompiledActionV> {
    let instr = p.instructions[j];
    match instr.operation {
        Operation::SetTime(t) => Some(CompiledActionV::SetTime(t)),
        Operation::SendGetTemplate => Some(CompiledActionV::SendRawMessage {
            connection: spec_conn_value(p, instr.inputs[0] as int),
            command: CMD_GET_TEMPLATE,
            payload: seq![],
        }),
        Operation::SendTemplate => Some(CompiledActionV::SendRawMessage {
            connection: spec_conn_value(p, instr.inputs[0] as int),
            command: CMD_TEMPLATE,
            payload: spec_template_payload(txos),
        }),
        _ => None,
    }
}

/// The actions emitted for the first `n` instructions, in program order.
pub open spec fn spec_compile_upto(p: ProgramV, txos: Seq<TxoV>, n: int) -> Seq<CompiledActionV>
    decreases n,
{
    if n <= 0 {
        seq![]
    } else {
        spec_compile_upto(p, txos, n - 1) + match spec_action_of(p, txos, n - 1) {
            Some(a) => seq![a],
            None => seq![],
        }
    }
}

/// The full lowering of a program against the given resource table.
pub open spec fn spec_compile(p: ProgramV, txos: Seq<TxoV>) -> Seq<CompiledActionV> {
    spec_compile_upto(p, txos, p.instructions.len() as int)
}

/// Whether one environment slot holds exactly the value that
/// [`spec_value_of`] assigns to position `j`.
pub open spec fn env_entry_ok(p: ProgramV, txos: Seq<TxoV>, e: Option<CompiledValue>, j: int) -> bool {
    match e {
        Some(v) => spec_value_of(p, txos, j) == Some(v@),
        None => spec_value_of(p, txos, j) is None,
    }
}

/// An exact copy of a byte vector.
fn copy_bytes(b: &Vec<u8>) -> (r: Vec<u8>)
    ensures
        r@ == b@,
{
    let mut out: Vec<u8> = Vec::new();
    let mut i: usize = 0;
    while i < b.len()
        invariant
            i <= b@.len(),
            out@ == b@.subrange(0, i as int),
        decreases b@.len() - i,
    {
        out.push(b[i]);
        assert(out@ =~= b@.subrange(0, i + 1 as int));
        i += 1;
    }
    assert(out@ =~= b@);
    out
}

/// An exact copy of a compiled action.
pub fn clone_action(a: &CompiledAction) -> (r: CompiledAction)
    ensures
        r@ == a@,
{
    match a {
        CompiledAction::SendRawMessage { connection, command, payload } =>
            CompiledAction::SendRawMessage {
                connection: *connection,
                command: *command,
                payload: copy_bytes(payload),
            },
        CompiledAction::SetTime(t) => CompiledAction::SetTime(*t),
    }
}

/// Lowers symbolic programs against a fixed table of spendable outputs.
#[derive(Clone, Debug)]
pub struct Compiler {
    pub txos: Vec<Txo>,
}

impl View for Compiler {
    type V = Seq<TxoV>;

    open spec fn view(&self) -> Seq<TxoV> {
        self.txos@.map_values(|t: Txo| t@)
    }
}

impl Compiler {
    /// A compiler with an empty resource table.
    pub fn new() -> (r: Compiler)
        ensures
            r@.len() == 0,
    {
        Compiler { txos: Vec::new() }
    }

    /// A compiler using the given spendable-output table.
    pub fn with_txos(txos: Vec<Txo>) -> (r: Compiler)
        ensures
            r@ == txos@.map_values(|t: Txo| t@),
    {
        Compiler { txos }
    }

    /// The concrete template content for this compiler's resource table.
    fn build_template_payload(&self) -> (r: Vec<u8>)
        ensures
            r@ == spec_template_payload(self@),
    {
        let mut out: Vec<u8> = Vec::new();
        let mut i: usize = 0;
        assert(self@.skip(0) =~= self@);
        while i < self.txos.len()
            invariant
                i <= self.txos@.len(),
                spec_template_payload(self@)
                    == out@ + spec_template_payload(self@.skip(i as int)),
            decreases self.txos@.len() - i,
        {
            let txid = &self.txos[i].outpoint_txid;
            let ghost mid = out@;
            let mut k: usize = 0;
            while k < txid.len()
                invariant
                    k <= txid@.len(),
                    out@ == mid + txid@.subrange(0, k as int),
                decreases txid@.len() - k,
            {
                out.push(txid[k]);
                assert(out@ =~= mid + txid@.subrange(0, k + 1 as int));
                k += 1;
            }
            proof {
                assert(txid@.subrange(0, txid@.len() as int) =~= txid@);
                let rest = self@.skip(i as int);
                assert(rest[0] == self@[i as int]);
                assert(rest.skip(1) =~= self@.skip(i + 1));
                assert(spec_template_payload(rest)
                    == self@[i as int].outpoint_txid + spec_template_payload(self@.skip(i + 1)));
                assert(spec_template_payload(self@)
                    =~= out@ + spec_template_payload(self@.skip(i + 1)));
            }
            i += 1;
        }
        proof {
            assert(self@.skip(i as int) =~= Seq::<TxoV>::empty());
            assert(out@ =~= spec_template_payload(self@));
        }
        out
    }

    /// Lowers `program` in one forward pass. Succeeds exactly on
    /// well-formed programs, and then yields precisely the action sequence
    /// [`spec_compile`] describes; an ill-formed program yields an error
    /// and nothing else.
    pub fn compile(&self, program: &Program) -> (r: Result<CompiledProgram, CompileError>)
        ensures
            r is Ok <==> program_wf(program@),
            r matches Ok(cp) ==> cp@.actions == spec_compile(program@, self@),
    {
        let ghost p = program@;
        let ghost txos = self@;
        let mut env: Vec<Option<CompiledValue>> = Vec::new();
        let mut actions: Vec<CompiledAction> = Vec::new();
        let n = program.instructions.len();
        let mut i: usize = 0;
        while i < n
            invariant
                n == p.instructions.len(),
                p == program@,
                txos == self@,
                i <= n,
                env@.len() == i,
                forall|j: int| 0 <= j < i ==> env_entry_ok(p, txos, #[trigger] env@[j], j),
                forall|j: int| 0 <= j < i
                    ==> instr_ok(p.instructions, j, #[trigger] p.instructions[j], p.context),
                actions@.map_values(|a: CompiledAction| a@) == spec_compile_upto(p, txos, i as int),
            decreases n - i,
        {
            let instr = &program.instructions[i];
            let kinds = instr.operation.input_kinds();
            if instr.inputs.len() != kinds.len() {
                assert(!instr_ok(p.instructions, i as int, p.instructions[i as int], p.context));
                return Err(CompileError::IllFormedProgram);
            }
            if instr.operation.needs_connection() && program.context.num_connections == 0 {
                assert(!instr_ok(p.instructions, i as int, p.instructions[i as int], p.context));
                return Err(CompileError::IllFormedProgram);
            }
            let mut k: usize = 0;
            while k < kinds.len()
                invariant
                    kinds@ == p.instructions[i as int].operation.spec_input_kinds(),
                    instr.inputs@.len() == kinds@.len(),
                    instr == &program.instructions[i as int],
                    p == program@,
                    txos == self@,
                    i < p.instructions.len(),
                    k <= kinds@.len(),
                    env@.len() == i,
                    forall|j: int| 0 <= j < i ==> env_entry_ok(p, txos, #[trigger] env@[j], j),
                    forall|q: int| 0 <= q < k ==> {
                        &&& #[trigger] p.instructions[i as int].inputs[q] < i
                        &&& p.instructions[p.instructions[i as int].inputs[q] as int]
                            .operation.spec_output_kind() == Some(kinds@[q])
                    },
                decreases kinds@.len() - k,
            {
                let input = instr.inputs[k];
                let bad = if input >= i {
                    true
                } else {
                    match &env[input] {
                        Some(CompiledValue::Connection(_)) => kinds[k] != VarKind::Connection,
                        Some(CompiledValue::Template(_)) => kinds[k] != VarKind::Template,
                        None => true,
                    }
                };
                if bad {
                    assert(!instr_ok(p.instructions, i as int, p.instructions[i as int],
                        p.context));
                    return Err(CompileError::IllFormedProgram);
                }
                k += 1;
            }
            assert(instr_ok(p.instructions, i as int, p.instructions[i as int], p.context));

            let ghost actions_before = actions@;
            match instr.operation {
                Operation::LoadConnection(conn) => {
                    env.push(Some(CompiledValue::Connection(conn)));
                },
                Operation::SetTime(t) => {
                    actions.push(CompiledAction::SetTime(t));
                    env.push(None);
                },
                Operation::SendGetTemplate => {
                    let c = instr.inputs[0];
                    let conn = match &env[c] {
                        Some(CompiledValue::Connection(conn)) => *conn,
                        _ => {
                            assert(false);
                            return Err(CompileError::IllFormedProgram);
                        },
                    };
                    actions.push(CompiledAction::SendRawMessage {
                        connection: conn,
                        command: CMD_GET_TEMPLATE,
                        payload: Vec::new(),
                    });
                    env.push(None);
                },
                Operation::BuildTemplate => {
                    let payload = self.build_template_payload();
                    env.push(Some(CompiledValue::Template(payload)));
                },
                Operation::SendTemplate => {
                    let c = instr.inputs[0];
                    let t = instr.inputs[1];
                    let conn = match &env[c] {
                        Some(CompiledValue::Connection(conn)) => *conn,
                        _ => {
                            assert(false);
                            return Err(CompileError::IllFormedProgram);
                        },
                    };
                    let payload = match &env[t] {
                        Some(CompiledValue::Template(b)) => copy_bytes(b),
                        _ => {
                            assert(false);
                            return Err(CompileError::IllFormedProgram);
                        },
                    };
                    actions.push(CompiledAction::SendRawMessage {
                        connection: conn,
                        command: CMD_TEMPLATE,
                        payload,
                    });
                    env.push(None);
                },
            }
            proof {
                assert(actions@.map_values(|a: CompiledAction| a@)
                    =~= spec_compile_upto(p, txos, i + 1));
            }
            i += 1;
        }
        assert(program_wf(p));
        let compiled = CompiledProgram { actions };
        assert(compiled@.actions == spec_compile(p, txos));
        Ok(compiled)
    }
}

} // verus!
