//! Generation strategies: each decides where to insert into a program and
//! what to insert, optionally steered by request events recorded during a
//! previous execution of a structurally similar program.

use vstd::prelude::*;

use crate::builder::{ProgramBuilder, append_ok};
use crate::ir::{Instruction, InstructionV, Operation, PerTestcaseMetadata, Program,
    ProgramContext, RequestEvent, VarKind, program_wf};
use crate::randomness::rand_below;

verus! {

/// Why a generation pass produced nothing.
#[derive(Clone, Copy, Debug, PartialEq, Eq, Structural)]
pub enum GeneratorError {
    /// The program's context makes this generator inapplicable (for
    /// example, no connection exists for a connection-requiring operation).
    /// Recoverable: the program is left untouched.
    InvalidContext(ProgramContext),
    /// The recorded metadata does not line up with the program under
    /// construction (the insertion point does not follow the instruction
    /// that the recorded request points at, or the recorded connection is
    /// not a connection variable of this program). Construction is aborted.
    CorruptedMetadata,
}

pub type GeneratorResult = Result<(), GeneratorError>;

/// The first recorded event whose triggering instruction is `target`, in
/// recording order.
pub open spec fn spec_first_match(reqs: Seq<RequestEvent>, target: usize) -> Option<RequestEvent>
    decreases reqs.len(),
{
    if reqs.len() == 0 {
        None
    } else if reqs[0].triggering_instruction_index == target {
        Some(reqs[0])
    } else {
        spec_first_match(reqs.skip(1), target)
    }
}

proof fn lemma_first_match_skip(reqs: Seq<RequestEvent>, target: usize, k: int)
    requires
        0 <= k <= reqs.len(),
        forall|i: int| 0 <= i < k
            ==> (#[trigger] reqs[i]).triggering_instruction_index != target,
    ensures
        spec_first_match(reqs, target) == spec_first_match(reqs.skip(k), target),
    decreases k,
{
    if k == 0 {
        assert(reqs.skip(0) =~= reqs);
    } else {
        lemma_first_match_skip(reqs, target, k - 1);
        let tail = reqs.skip(k - 1);
        assert(tail[0] == reqs[k - 1]);
        assert(spec_first_match(tail, target) == spec_first_match(tail.skip(1), target));
        assert(tail.skip(1) =~= reqs.skip(k));
    }
}

/// Finds the first recorded event triggered by instruction `target`.
fn find_first_match(reqs: &Vec<RequestEvent>, target: usize) -> (r: Option<RequestEvent>)
    ensures
        r == spec_first_match(reqs@, target),
{
    let mut k: usize = 0;
    while k < reqs.len()
        invariant
            k <= reqs@.len(),
            forall|i: int| 0 <= i < k
                ==> (#[trigger] reqs@[i]).triggering_instruction_index != target,
        decreases reqs@.len() - k,
    {
        if reqs[k].triggering_instruction_index == target {
            proof {
                lemma_first_match_skip(reqs@, target, k as int);
                assert(reqs@.skip(k as int)[0] == reqs@[k as int]);
            }
            return Some(reqs[k]);
        }
        k += 1;
    }
    proof {
        lemma_first_match_skip(reqs@, target, reqs@.len() as int);
    }
    None
}

impl Program {
    /// A uniformly random legal insertion position (any position from the
    /// start up to and including the end of the instruction stream),
    /// provided the context satisfies the caller's declared requirement.
    pub fn get_random_instruction_index(
        &self,
        rng: &mut rand::rngs::StdRng,
        needs_connection: bool,
    ) -> (r: Option<usize>)
        requires
            self@.instructions.len() < usize::MAX,
        ensures
            match r {
                Some(pos) => {
                    &&& pos <= self@.instructions.len()
                    &&& (needs_connection ==> self@.context.num_connections > 0)
                },
                None => needs_connection && self@.context.num_connections == 0,
            },
    {
        if needs_connection && self.context.num_connections == 0 {
            return None;
        }
        let pos = rand_below(rng, self.instructions.len() + 1);
        Some(pos)
    }
}

/// Whether `pos` is the position immediately after the trigger of some
/// recorded event that lies within a program of `len` instructions.
pub open spec fn follows_recorded_trigger(reqs: Seq<RequestEvent>, len: nat, pos: usize) -> bool {
    exists|j: int| 0 <= j < reqs.len()
        && (#[trigger] reqs[j]).triggering_instruction_index < len
        && pos == reqs[j].triggering_instruction_index + 1
}

/// Inserts a template request addressed to a randomly chosen connection,
/// creating the connection variable first if none exists yet.
#[derive(Clone, Copy, Debug, Default, PartialEq, Eq, Structural)]
pub struct GetTemplateGenerator;

impl GetTemplateGenerator {
    /// A fresh generator.
    pub fn new() -> (r: GetTemplateGenerator)
        ensures
            r == (GetTemplateGenerator {}),
    {
        GetTemplateGenerator {}
    }

    /// This generator's diagnostic name.
    pub fn name(&self) -> &'static str {
        "GetTemplateGenerator"
    }

    /// Emits a connection-addressed template request at the end of the
    /// program. With no established connection the context is invalid: the
    /// error is returned and the program is left exactly as it was.
    pub fn generate(
        &self,
        builder: &mut ProgramBuilder,
        rng: &mut rand::rngs::StdRng,
        _meta: Option<&PerTestcaseMetadata>,
    ) -> (r: GeneratorResult)
        requires
            program_wf(old(builder)@),
        ensures
            program_wf(final(builder)@),
            final(builder)@.context == old(builder)@.context,
            old(builder)@.context.num_connections == 0 ==> {
                &&& r == GeneratorResult::Err(
                    GeneratorError::InvalidContext(old(builder)@.context))
                &&& final(builder)@ == old(builder)@
            },
            old(builder)@.context.num_connections > 0 ==> {
                &&& r is Ok
                &&& {
                    let n = final(builder)@.instructions.len();
                    let m = old(builder)@.instructions.len();
                    &&& m < n <= m + 2
                    &&& old(builder)@.instructions == final(builder)@.instructions.take(m as int)
                    &&& final(builder)@.instructions[n - 1].operation == Operation::SendGetTemplate
                    &&& final(builder)@.instructions[n - 1].inputs.len() == 1
                }
            },
    {
        if builder.context().num_connections == 0 {
            return Err(GeneratorError::InvalidContext(builder.context()));
        }
        let ghost start = builder@;
        let conn_var = match builder.get_or_create_random_connection(rng) {
            Some(var) => var,
            None => {
                assert(false);
                return Err(GeneratorError::InvalidContext(builder.context()));
            },
        };
        let ghost mid = builder@;
        let mut inputs: Vec<usize> = Vec::new();
        inputs.push(conn_var.index);
        let appended = builder.force_append(inputs, Operation::SendGetTemplate);
        match appended {
            Ok(_) => {
                proof {
                    let m = start.instructions.len() as int;
                    assert(start.instructions =~= mid.instructions.take(m));
                    assert(start.instructions
                        =~= final(builder)@.instructions.take(m));
                }
                Ok(())
            },
            Err(_) => {
                assert(false);
                Err(GeneratorError::InvalidContext(builder.context()))
            },
        }
    }
}

/// The two instructions the template generator emits to answer a recorded
/// template request: build the template, then send it on the connection the
/// request arrived on.
pub open spec fn spec_template_response(conn: usize, build_pos: usize) -> Seq<InstructionV> {
    seq![
        InstructionV { operation: Operation::BuildTemplate, inputs: seq![] },
        InstructionV { operation: Operation::SendTemplate, inputs: seq![conn, build_pos] },
    ]
}

/// Answers a recorded template request by inserting a build-and-send pair
/// immediately after the request that triggered it.
#[derive(Clone, Copy, Debug, Default, PartialEq, Eq, Structural)]
pub struct TemplateGenerator;

impl TemplateGenerator {
    /// A fresh generator.
    pub fn new() -> (r: TemplateGenerator)
        ensures
            r == (TemplateGenerator {}),
    {
        TemplateGenerator {}
    }

    /// This generator's diagnostic name.
    pub fn name(&self) -> &'static str {
        "TemplateGenerator"
    }

    /// Picks the insertion position: immediately after the trigger of a
    /// recorded compact-block-transaction request lying in this program,
    /// chosen uniformly among the recorded candidates; with no such record,
    /// a uniformly random legal position.
    pub fn choose_index(
        &self,
        program: &Program,
        rng: &mut rand::rngs::StdRng,
        meta: Option<&PerTestcaseMetadata>,
    ) -> (r: Option<usize>)
        requires
            program@.instructions.len() < usize::MAX,
        ensures
            match r {
                Some(pos) => pos <= program@.instructions.len(),
                None => program@.context.num_connections == 0,
            },
            (match meta {
                Some(m) => exists|i: int| 0 <= i < m.block_txn_requests@.len()
                    && (#[trigger] m.block_txn_requests@[i]).triggering_instruction_index
                        < program@.instructions.len(),
                None => false,
            }) ==> (match meta {
                Some(m) => r matches Some(pos) && follows_recorded_trigger(
                    m.block_txn_requests@, program@.instructions.len(), pos),
                None => false,
            }),
    {
        if let Some(m) = meta {
            let reqs = m.block_txn_request();
            let mut candidates: Vec<usize> = Vec::new();
            let mut k: usize = 0;
            while k < reqs.len()
                invariant
                    k <= reqs@.len(),
                    reqs@ == match meta {
                        Some(mm) => mm.block_txn_requests@,
                        None => reqs@,
                    },
                    meta is Some,
                    forall|i: int| 0 <= i < candidates@.len() ==> follows_recorded_trigger(
                        reqs@, program@.instructions.len(), #[trigger] candidates@[i]),
                    (exists|j: int| 0 <= j < k
                        && (#[trigger] reqs@[j]).triggering_instruction_index
                            < program@.instructions.len())
                        ==> candidates@.len() > 0,
                    program@.instructions.len() < usize::MAX,
                decreases reqs@.len() - k,
            {
                let trigger = reqs[k].triggering_instruction_index;
                if trigger < program.instructions.len() {
                    candidates.push(trigger + 1);
                    assert(follows_recorded_trigger(reqs@, program@.instructions.len(),
                        candidates@[candidates@.len() - 1])) by {
                        assert((#[trigger] reqs@[k as int]).triggering_instruction_index
                            < program@.instructions.len());
                    }
                }
                k += 1;
            }
            if candidates.len() > 0 {
                let pick = rand_below(rng, candidates.len());
                return Some(candidates[pick]);
            }
        }
        program.get_random_instruction_index(rng, true)
    }

    /// When the metadata records template requests, the last instruction of
    /// the program under construction must be the template request that
    /// triggered one of them; the generator then appends the build-and-send
    /// response pair, addressed to the connection the recorded request
    /// arrived on. A record that does not line up with the program aborts
    /// construction; metadata with no request matching the insertion point
    /// is a successful no-op.
    pub fn generate(
        &self,
        builder: &mut ProgramBuilder,
        _rng: &mut rand::rngs::StdRng,
        meta: Option<&PerTestcaseMetadata>,
    ) -> (r: GeneratorResult)
        requires
            program_wf(old(builder)@),
        ensures
            program_wf(final(builder)@),
            final(builder)@.context == old(builder)@.context,
            (match meta {
                Some(m) => m.template_requests@.len() == 0,
                None => true,
            }) ==> r is Ok && final(builder)@ == old(builder)@,
            (match meta {
                Some(m) => m.template_requests@.len() > 0,
                None => false,
            }) ==> {
                let reqs = meta.unwrap().template_requests@;
                let n = old(builder)@.instructions.len();
                if n == 0 || old(builder)@.instructions[n - 1].operation
                    != Operation::SendGetTemplate {
                    &&& r == GeneratorResult::Err(GeneratorError::CorruptedMetadata)
                    &&& final(builder)@ == old(builder)@
                } else {
                    match spec_first_match(reqs, (n - 1) as usize) {
                        None => r is Ok && final(builder)@ == old(builder)@,
                        Some(event) => {
                            if event.connection_index < n
                                && old(builder)@.instructions[event.connection_index as int]
                                    .operation.spec_output_kind() == Some(VarKind::Connection) {
                                &&& r is Ok
                                &&& final(builder)@.instructions == old(builder)@.instructions
                                    + spec_template_response(event.connection_index, n as usize)
                            } else {
                                &&& r == GeneratorResult::Err(GeneratorError::CorruptedMetadata)
                                &&& final(builder)@ == old(builder)@
                            }
                        },
                    }
                }
            },
    {
        let m = match meta {
            Some(m) => m,
            None => {
                return Ok(());
            },
        };
        if m.template_request().len() == 0 {
            return Ok(());
        }
        let insertion_point = builder.instructions.len();
        if insertion_point == 0 {
            return Err(GeneratorError::CorruptedMetadata);
        }
        let last_op = builder.instructions[insertion_point - 1].operation;
        if last_op != Operation::SendGetTemplate {
            return Err(GeneratorError::CorruptedMetadata);
        }
        let event = match find_first_match(m.template_request(), insertion_point - 1) {
            Some(event) => event,
            None => {
                return Ok(());
            },
        };
        if event.connection_index >= insertion_point {
            return Err(GeneratorError::CorruptedMetadata);
        }
        let conn_op = builder.instructions[event.connection_index].operation;
        let conn_kind = conn_op.output_kind();
        let conn_ok = match conn_kind {
            Some(kind) => kind == VarKind::Connection,
            None => false,
        };
        if !conn_ok {
            return Err(GeneratorError::CorruptedMetadata);
        }

        let ghost start = builder@;
        let template = match builder.append(Instruction {
            operation: Operation::BuildTemplate,
            inputs: Vec::new(),
        }) {
            Ok(Some(var)) => var,
            _ => {
                assert(false);
                return Err(GeneratorError::CorruptedMetadata);
            },
        };
        let mut inputs: Vec<usize> = Vec::new();
        inputs.push(event.connection_index);
        inputs.push(template.index);
        let appended = builder.append(Instruction {
            operation: Operation::SendTemplate,
            inputs,
        });
        match appended {
            Ok(_) => {
                proof {
                    assert(final(builder)@.instructions =~~= start.instructions
                        + spec_template_response(event.connection_index,
                            start.instructions.len() as usize));
                }
                Ok(())
            },
            Err(_) => {
                assert(false);
                Err(GeneratorError::CorruptedMetadata)
            },
        }
    }
}

} // verus!
