//! The symbolic instruction model: operations with fixed arity and typing,
//! instructions referencing earlier outputs by index, programs with their
//! environment context, and the external resource tables consumed by
//! generation and compilation.

use vstd::prelude::*;

verus! {

/// The kind of value a variable holds. A variable is the output of an
/// earlier instruction, referenced by that instruction's position.
#[derive(Clone, Copy, Debug, PartialEq, Eq, Structural)]
pub enum VarKind {
    Connection,
    Template,
}

/// A closed set of symbolic actions. Each operation has a fixed input
/// signature and produces at most one output, both known statically.
#[derive(Clone, Copy, Debug, PartialEq, Eq, Structural)]
pub enum Operation {
    /// Load a handle to one of the environment's established connections;
    /// produces a `Connection` variable.
    LoadConnection(u64),
    /// Advance the simulated clock to the given timestamp.
    SetTime(u64),
    /// Ask the peer on the given connection for a block template.
    SendGetTemplate,
    /// Assemble a block template from the external resource tables;
    /// produces a `Template` variable.
    BuildTemplate,
    /// Send a previously built template over the given connection.
    SendTemplate,
}

impl Operation {
    /// The kinds of variables this operation consumes, in order.
    pub open spec fn spec_input_kinds(self) -> Seq<VarKind> {
        match self {
            Operation::LoadConnection(_) => seq![],
            Operation::SetTime(_) => seq![],
            Operation::SendGetTemplate => seq![VarKind::Connection],
            Operation::BuildTemplate => seq![],
            Operation::SendTemplate => seq![VarKind::Connection, VarKind::Template],
        }
    }

    /// The kind of the variable this operation produces, if any.
    pub open spec fn spec_output_kind(self) -> Option<VarKind> {
        match self {
            Operation::LoadConnection(_) => Some(VarKind::Connection),
            Operation::SetTime(_) => None,
            Operation::SendGetTemplate => None,
            Operation::BuildTemplate => Some(VarKind::Template),
            Operation::SendTemplate => None,
        }
    }

    /// True for operations that may only appear when the environment has at
    /// least one established connection.
    pub open spec fn spec_needs_connection(self) -> bool {
        self is LoadConnection
    }

    /// Executable mirror of [`Self::spec_input_kinds`].
    pub fn input_kinds(&self) -> (r: Vec<VarKind>)
        ensures
            r@ == self.spec_input_kinds(),
    {
        match self {
            Operation::LoadConnection(_) => Vec::new(),
            Operation::SetTime(_) => Vec::new(),
            Operation::SendGetTemplate => {
                let mut v: Vec<VarKind> = Vec::new();
                v.push(VarKind::Connection);
                assert(v@ =~= self.spec_input_kinds());
                v
            },
            Operation::BuildTemplate => Vec::new(),
            Operation::SendTemplate => {
                let mut v: Vec<VarKind> = Vec::new();
                v.push(VarKind::Connection);
                v.push(VarKind::Template);
                assert(v@ =~= self.spec_input_kinds());
                v
            },
        }
    }

    /// Executable mirror of [`Self::spec_output_kind`].
    pub fn output_kind(&self) -> (r: Option<VarKind>)
        ensures
            r == self.spec_output_kind(),
    {
        match self {
            Operation::LoadConnection(_) => Some(VarKind::Connection),
            Operation::SetTime(_) => None,
            Operation::SendGetTemplate => None,
            Operation::BuildTemplate => Some(VarKind::Template),
            Operation::SendTemplate => None,
        }
    }

    /// Executable mirror of [`Self::spec_needs_connection`].
    pub fn needs_connection(&self) -> (r: bool)
        ensures
            r == self.spec_needs_connection(),
    {
        matches!(self, Operation::LoadConnection(_))
    }
}

/// A typed handle to the output of a prior instruction. The index is the
/// position of the producing instruction in the program.
#[derive(Clone, Copy, Debug, PartialEq, Eq, Structural)]
pub struct Variable {
    pub index: usize,
    pub kind: VarKind,
}

/// One step of a symbolic program: an operation applied to the outputs of
/// strictly earlier instructions.
#[derive(Clone, Debug, PartialEq, Eq)]
pub struct Instruction {
    pub operation: Operation,
    pub inputs: Vec<usize>,
}

/// Mathematical view of an [`Instruction`].
#[verifier::ext_equal]
pub struct InstructionV {
    pub operation: Operation,
    pub inputs: Seq<usize>,
}

impl View for Instruction {
    type V = InstructionV;

    open spec fn view(&self) -> InstructionV {
        InstructionV { operation: self.operation, inputs: self.inputs@ }
    }
}

/// Metadata about the simulated environment a program runs in: how many
/// nodes and already-established connections exist, and the logical clock.
#[derive(Clone, Copy, Debug, PartialEq, Eq, Structural)]
pub struct ProgramContext {
    pub num_nodes: usize,
    pub num_connections: usize,
    pub timestamp: u64,
}

/// A symbolic test program: an ordered instruction stream plus the context
/// it was generated for.
#[derive(Clone, Debug, PartialEq, Eq)]
pub struct Program {
    pub instructions: Vec<Instruction>,
    pub context: ProgramContext,
}

/// Mathematical view of a [`Program`].
#[verifier::ext_equal]
pub struct ProgramV {
    pub instructions: Seq<InstructionV>,
    pub context: ProgramContext,
}

impl View for Program {
    type V = ProgramV;

    open spec fn view(&self) -> ProgramV {
        ProgramV {
            instructions: self.instructions@.map_values(|i: Instruction| i@),
            context: self.context,
        }
    }
}

/// Whether `instr`, placed at position `pos` of a program whose earlier
/// instructions are `prior` and whose context is `ctx`, is well-formed:
/// arity and kinds match the operation's signature, every input references
/// a strictly earlier instruction that produces the required kind, and the
/// operation's context precondition holds.
pub open spec fn instr_ok(
    prior: Seq<InstructionV>,
    pos: int,
    instr: InstructionV,
    ctx: ProgramContext,
) -> bool {
    &&& instr.inputs.len() == instr.operation.spec_input_kinds().len()
    &&& forall|k: int| 0 <= k < instr.inputs.len() ==> {
        &&& #[trigger] instr.inputs[k] < pos
        &&& prior[instr.inputs[k] as int].operation.spec_output_kind()
            == Some(instr.operation.spec_input_kinds()[k])
    }
    &&& instr.operation.spec_needs_connection() ==> ctx.num_connections > 0
}

/// The causal-ordering and typing invariant of a whole program: every
/// instruction is well-formed with respect to the instructions before it.
pub open spec fn program_wf(p: ProgramV) -> bool {
    forall|j: int| 0 <= j < p.instructions.len()
        ==> instr_ok(p.instructions, j, #[trigger] p.instructions[j], p.context)
}

/// A spendable transaction output from the external resource table:
/// where it sits in the chain, its value, and the script material needed
/// to lock and later spend it.
#[derive(Clone, Debug, PartialEq, Eq)]
pub struct Txo {
    pub outpoint_txid: Vec<u8>,
    pub outpoint_vout: u32,
    pub value: u64,
    pub script_pubkey: Vec<u8>,
    pub spending_script_sig: Vec<u8>,
    pub spending_witness: Vec<Vec<u8>>,
}

/// Mathematical view of a [`Txo`].
#[verifier::ext_equal]
pub struct TxoV {
    pub outpoint_txid: Seq<u8>,
    pub outpoint_vout: u32,
    pub value: u64,
    pub script_pubkey: Seq<u8>,
    pub spending_script_sig: Seq<u8>,
    pub spending_witness: Seq<Seq<u8>>,
}

impl View for Txo {
    type V = TxoV;

    open spec fn view(&self) -> TxoV {
        TxoV {
            outpoint_txid: self.outpoint_txid@,
            outpoint_vout: self.outpoint_vout,
            value: self.value,
            script_pubkey: self.script_pubkey@,
            spending_script_sig: self.spending_script_sig@,
            spending_witness: self.spending_witness@.map_values(|w: Vec<u8>| w@),
        }
    }
}

/// A known block header from the external resource table, with all fields
/// already in consensus-encoded integer form.
#[derive(Clone, Debug, PartialEq, Eq)]
pub struct Header {
    pub prev: Vec<u8>,
    pub merkle_root: Vec<u8>,
    pub nonce: u32,
    pub bits: u32,
    pub time: u32,
    pub version: u32,
    pub height: u32,
}

/// Mathematical view of a [`Header`].
#[verifier::ext_equal]
pub struct HeaderV {
    pub prev: Seq<u8>,
    pub merkle_root: Seq<u8>,
    pub nonce: u32,
    pub bits: u32,
    pub time: u32,
    pub version: u32,
    pub height: u32,
}

impl View for Header {
    type V = HeaderV;

    open spec fn view(&self) -> HeaderV {
        HeaderV {
            prev: self.prev@,
            merkle_root: self.merkle_root@,
            nonce: self.nonce,
            bits: self.bits,
            time: self.time,
            version: self.version,
            height: self.height,
        }
    }
}

/// The context bundle emitted once per scenario setup for external replay
/// tools: the program context plus the two resource tables.
#[derive(Clone, Debug, PartialEq, Eq)]
pub struct FullProgramContext {
    pub context: ProgramContext,
    pub txos: Vec<Txo>,
    pub headers: Vec<Header>,
}

/// Mathematical view of a [`FullProgramContext`].
#[verifier::ext_equal]
pub struct FullProgramContextV {
    pub context: ProgramContext,
    pub txos: Seq<TxoV>,
    pub headers: Seq<HeaderV>,
}

impl View for FullProgramContext {
    type V = FullProgramContextV;

    open spec fn view(&self) -> FullProgramContextV {
        FullProgramContextV {
            context: self.context,
            txos: self.txos@.map_values(|t: Txo| t@),
            headers: self.headers@.map_values(|h: Header| h@),
        }
    }
}

/// One request observed during a previous execution: which instruction
/// triggered it and which connection variable it arrived on.
#[derive(Clone, Copy, Debug, PartialEq, Eq, Structural)]
pub struct RequestEvent {
    pub triggering_instruction_index: usize,
    pub connection_index: usize,
}

/// Feedback captured from a previous run of a structurally similar program,
/// consumed read-only by generators to place causally tied responses.
#[derive(Clone, Debug, PartialEq, Eq)]
pub struct PerTestcaseMetadata {
    pub template_requests: Vec<RequestEvent>,
    pub block_txn_requests: Vec<RequestEvent>,
}

impl PerTestcaseMetadata {
    /// The template requests recorded by the previous execution.
    pub fn template_request(&self) -> (r: &Vec<RequestEvent>)
        ensures
            r@ == self.template_requests@,
    {
        &self.template_requests
    }

    /// The compact-block-transaction requests recorded by the previous
    /// execution.
    pub fn block_txn_request(&self) -> (r: &Vec<RequestEvent>)
        ensures
            r@ == self.block_txn_requests@,
    {
        &self.block_txn_requests
    }
}

} // verus!
