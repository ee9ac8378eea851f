//! Mutable construction API over a [`Program`]: appending an instruction
//! validates arity, input kinds, causal ordering and the operation's context
//! precondition, and fails without mutating the program otherwise.

use vstd::prelude::*;

use crate::ir::{Instruction, InstructionV, Operation, Program, ProgramContext, ProgramV, VarKind,
    Variable, instr_ok, program_wf};
use crate::randomness::rand_below;

verus! {

/// Why an append was rejected: the instruction's inputs do not fit the
/// operation's signature, reference out-of-range or future variables, or
/// the operation's context precondition does not hold.
#[derive(Clone, Copy, Debug, PartialEq, Eq, Structural)]
pub enum BuilderError {
    TypeError,
}

/// Whether appending `instr` at the end of program `p` is legal.
pub open spec fn append_ok(p: ProgramV, instr: InstructionV) -> bool {
    instr_ok(p.instructions, p.instructions.len() as int, instr, p.context)
}

/// The variable handle produced by the instruction at position `pos` of
/// program `p`, if its operation produces one.
pub open spec fn spec_output_var(p: ProgramV, pos: int) -> Option<Variable> {
    match p.instructions[pos].operation.spec_output_kind() {
        Some(kind) => Some(Variable { index: pos as usize, kind }),
        None => None,
    }
}

/// Appending a legal instruction to a well-formed program keeps it
/// well-formed: no earlier instruction changes, and the new one is checked
/// against everything before it.
pub proof fn lemma_append_preserves_wf(p: ProgramV, instr: InstructionV)
    requires
        program_wf(p),
        append_ok(p, instr),
    ensures
        program_wf(ProgramV { instructions: p.instructions.push(instr), context: p.context }),
{
    let p2 = ProgramV { instructions: p.instructions.push(instr), context: p.context };
    assert forall|j: int| 0 <= j < p2.instructions.len()
        implies instr_ok(p2.instructions, j, #[trigger] p2.instructions[j], p2.context) by {
        if j < p.instructions.len() {
            assert(instr_ok(p.instructions, j, p.instructions[j], p.context));
            assert forall|k: int| 0 <= k < p2.instructions[j].inputs.len() implies {
                &&& #[trigger] p2.instructions[j].inputs[k] < j
                &&& p2.instructions[p2.instructions[j].inputs[k] as int].operation.spec_output_kind()
                    == Some(p2.instructions[j].operation.spec_input_kinds()[k])
            } by {
                assert(p.instructions[j].inputs[k] < j);
            }
        }
    }
}

/// The causal-ordering invariant spelled out: in a well-formed program every
/// instruction's input indices are strictly less than its own position, so a
/// variable is never read before the instruction that produces it.
pub proof fn lemma_wf_causal_ordering(p: ProgramV)
    requires
        program_wf(p),
    ensures
        forall|j: int, k: int|
            0 <= j < p.instructions.len() && 0 <= k < p.instructions[j].inputs.len()
                ==> #[trigger] p.instructions[j].inputs[k] < j,
{
    assert forall|j: int, k: int|
        0 <= j < p.instructions.len() && 0 <= k < p.instructions[j].inputs.len()
        implies #[trigger] p.instructions[j].inputs[k] < j by {
        assert(instr_ok(p.instructions, j, p.instructions[j], p.context));
    }
}

/// Wraps a [`Program`] under construction; holds exclusive write access for
/// its lifetime. All mutation is confined to the wrapped program.
#[derive(Clone, Debug)]
pub struct ProgramBuilder {
    pub instructions: Vec<Instruction>,
    pub context: ProgramContext,
}

impl View for ProgramBuilder {
    type V = ProgramV;

    open spec fn view(&self) -> ProgramV {
        ProgramV {
            instructions: self.instructions@.map_values(|i: Instruction| i@),
            context: self.context,
        }
    }
}

impl ProgramBuilder {
    /// A builder over an empty program for the given context.
    pub fn new(context: ProgramContext) -> (r: ProgramBuilder)
        ensures
            r@.instructions.len() == 0,
            r@.context == context,
            program_wf(r@),
    {
        ProgramBuilder { instructions: Vec::new(), context }
    }

    /// A builder that continues an existing program.
    pub fn from_program(program: Program) -> (r: ProgramBuilder)
        ensures
            r@ == program@,
    {
        let Program { instructions, context } = program;
        ProgramBuilder { instructions, context }
    }

    /// The context the wrapped program is being generated for.
    pub fn context(&self) -> (r: ProgramContext)
        ensures
            r == self@.context,
    {
        self.context
    }

    /// Hands the finished program back.
    pub fn finalize(self) -> (r: Program)
        ensures
            r@ == self@,
    {
        let ProgramBuilder { instructions, context } = self;
        Program { instructions, context }
    }

    /// Validates `instruction` against the variables currently available and
    /// the operation's context precondition; on success appends it and
    /// returns the handle to its output, if the operation produces one.
    /// Fails without mutating the program otherwise.
    pub fn append(&mut self, instruction: Instruction) -> (r: Result<Option<Variable>, BuilderError>)
        ensures
            match r {
                Ok(v) => {
                    &&& append_ok(old(self)@, instruction@)
                    &&& final(self)@.instructions == old(self)@.instructions.push(instruction@)
                    &&& final(self)@.context == old(self)@.context
                    &&& v == spec_output_var(final(self)@, old(self)@.instructions.len() as int)
                    &&& program_wf(old(self)@) ==> program_wf(final(self)@)
                },
                Err(_) => {
                    &&& !append_ok(old(self)@, instruction@)
                    &&& final(self)@ == old(self)@
                },
            },
    {
        let pos = self.instructions.len();
        let kinds = instruction.operation.input_kinds();
        if instruction.inputs.len() != kinds.len() {
            return Err(BuilderError::TypeError);
        }
        if instruction.operation.needs_connection() && self.context.num_connections == 0 {
            return Err(BuilderError::TypeError);
        }
        let mut k: usize = 0;
        while k < kinds.len()
            invariant
                kinds@ == instruction@.operation.spec_input_kinds(),
                instruction@.inputs.len() == kinds@.len(),
                k <= kinds@.len(),
                self == old(self),
                pos == self@.instructions.len(),
                forall|i: int| 0 <= i < k ==> {
                    &&& #[trigger] instruction@.inputs[i] < pos
                    &&& self@.instructions[instruction@.inputs[i] as int]
                        .operation.spec_output_kind() == Some(kinds@[i])
                },
            decreases kinds@.len() - k,
        {
            let input = instruction.inputs[k];
            if input >= pos {
                return Err(BuilderError::TypeError);
            }
            let produced = self.instructions[input].operation.output_kind();
            match produced {
                Some(have) => {
                    if have != kinds[k] {
                        return Err(BuilderError::TypeError);
                    }
                },
                None => {
                    return Err(BuilderError::TypeError);
                },
            }
            k += 1;
        }
        assert(append_ok(self@, instruction@));
        let out = instruction.operation.output_kind();
        let ghost prior = self@;
        self.instructions.push(instruction);
        assert(final(self)@.instructions =~= prior.instructions.push(instruction@));
        proof {
            if program_wf(prior) {
                lemma_append_preserves_wf(prior, instruction@);
            }
        }
        match out {
            Some(kind) => Ok(Some(Variable { index: pos, kind })),
            None => Ok(None),
        }
    }

    /// Identical validation to [`Self::append`], but always inserts at the
    /// current end of the instruction stream; used when an operation must
    /// immediately follow the instructions that justify it.
    pub fn force_append(&mut self, inputs: Vec<usize>, operation: Operation)
        -> (r: Result<Option<Variable>, BuilderError>)
        ensures
            match r {
                Ok(v) => {
                    &&& append_ok(old(self)@, InstructionV { operation, inputs: inputs@ })
                    &&& final(self)@.instructions
                        == old(self)@.instructions.push(InstructionV { operation, inputs: inputs@ })
                    &&& final(self)@.context == old(self)@.context
                    &&& v == spec_output_var(final(self)@, old(self)@.instructions.len() as int)
                    &&& program_wf(old(self)@) ==> program_wf(final(self)@)
                },
                Err(_) => {
                    &&& !append_ok(old(self)@, InstructionV { operation, inputs: inputs@ })
                    &&& final(self)@ == old(self)@
                },
            },
    {
        self.append(Instruction { operation, inputs })
    }

    /// Picks an existing connection variable uniformly at random if any
    /// exist; otherwise synthesizes a connection-producing instruction when
    /// the context has at least one established connection. Returns `None`,
    /// leaving the program untouched, only when neither is possible.
    pub fn get_or_create_random_connection(&mut self, rng: &mut rand::rngs::StdRng)
        -> (r: Option<Variable>)
        requires
            program_wf(old(self)@),
        ensures
            program_wf(final(self)@),
            final(self)@.context == old(self)@.context,
            match r {
                Some(var) => {
                    &&& var.kind == VarKind::Connection
                    &&& var.index < final(self)@.instructions.len()
                    &&& final(self)@.instructions[var.index as int].operation.spec_output_kind()
                        == Some(VarKind::Connection)
                    &&& (final(self)@ == old(self)@
                        || final(self)@.instructions.len() == old(self)@.instructions.len() + 1)
                    &&& old(self)@.instructions
                        == final(self)@.instructions.take(old(self)@.instructions.len() as int)
                },
                None => {
                    &&& final(self)@ == old(self)@
                    &&& old(self)@.context.num_connections == 0
                    &&& forall|j: int| 0 <= j < old(self)@.instructions.len()
                        ==> (#[trigger] old(self)@.instructions[j]).operation.spec_output_kind()
                            != Some(VarKind::Connection)
                },
            },
    {
        let mut existing: Vec<usize> = Vec::new();
        let mut j: usize = 0;
        while j < self.instructions.len()
            invariant
                self == old(self),
                j <= self@.instructions.len(),
                forall|i: int| 0 <= i < existing@.len() ==> {
                    &&& #[trigger] existing@[i] < j
                    &&& self@.instructions[existing@[i] as int].operation.spec_output_kind()
                        == Some(VarKind::Connection)
                },
                existing@.len() == 0 ==> forall|i: int| 0 <= i < j
                    ==> (#[trigger] self@.instructions[i]).operation.spec_output_kind()
                        != Some(VarKind::Connection),
            decreases self@.instructions.len() - j,
        {
            let produced = self.instructions[j].operation.output_kind();
            if let Some(kind) = produced {
                if kind == VarKind::Connection {
                    existing.push(j);
                }
            }
            j += 1;
        }
        if existing.len() > 0 {
            let pick = rand_below(rng, existing.len());
            let index = existing[pick];
            assert(self@.instructions.take(self@.instructions.len() as int)
                =~= self@.instructions);
            return Some(Variable { index, kind: VarKind::Connection });
        }
        if self.context.num_connections == 0 {
            return None;
        }
        let which = rand_below(rng, self.context.num_connections);
        let ghost prior = self@;
        let appended = self.append(Instruction {
            operation: Operation::LoadConnection(which as u64),
            inputs: Vec::new(),
        });
        match appended {
            Ok(Some(var)) => {
                assert(prior.instructions
                    =~= final(self)@.instructions.take(prior.instructions.len() as int));
                Some(var)
            },
            Ok(None) => {
                assert(false);
                None
            },
            Err(_) => {
                assert(false);
                None
            },
        }
    }
}

} // verus!
