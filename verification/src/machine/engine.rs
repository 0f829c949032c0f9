//! The calls into `ternsig`, which assembles the text and runs the pass,
//! and one into the standard library.
//!
//! Nothing in this file is proved: each contract says what the crate's
//! source shows of the function that the body calls.

use vstd::prelude::*;
use vstd::string::StringSliceAdditionalSpecFns;
use std::collections::HashMap;
use ternsig::tensor_isa::{
    AssembledProgram, RegisterMeta, TensorAction, TensorDtype, TensorInstruction,
    TensorInterpreter, TensorRegister,
};
use crate::machine::listing::{Instruction, RegisterDecl};
use crate::machine::rules::{ListingView, ProgramListing};
use crate::machine::text::brackets_in_order;

verus! {

/// The interpreter of `ternsig`: its register banks and what goes with
/// them. Nothing of its inside is known here.
#[verifier::external_type_specification]
#[verifier::external_body]
pub struct ExTensorInterpreter(TensorInterpreter);

/// Why the assembler refused a text.
#[derive(Clone, Debug)]
pub struct SourceFault {
    /// Line of the text, counted from 1.
    pub line: usize,
    /// The assembler's message.
    pub message: String,
}

/// A refusal of the assembler as a mathematical value.
pub struct SourceFaultView {
    /// Line of the text, counted from 1.
    pub line: usize,
    /// The assembler's message.
    pub message: Seq<char>,
}

impl View for SourceFault {
    type V = SourceFaultView;

    open spec fn view(&self) -> SourceFaultView {
        SourceFaultView { line: self.line, message: self.message@ }
    }
}

/// What `ternsig::tensor_isa::assemble` makes of a source text: the listing,
/// or the line and the message of its refusal.
pub uninterp spec fn assembled(source: Seq<char>) -> Result<ListingView, SourceFaultView>;

/// The listing that an interpreter was made from.
pub uninterp spec fn loaded_listing(interp: TensorInterpreter) -> ListingView;

/// What `TensorInterpreter::forward_i32` returns on its first pass over a
/// listing, with all registers at zero before it: the lanes of the output, or
/// the interpreter's message.
pub uninterp spec fn pass_result(listing: ListingView, input: Seq<i32>) -> Result<
    Seq<i32>,
    Seq<char>,
>;

/// The outcome of assembling, as a mathematical value.
pub open spec fn assembly_view(outcome: Result<ProgramListing, SourceFault>) -> Result<
    ListingView,
    SourceFaultView,
> {
    match outcome {
        Ok(listing) => Ok(listing@),
        Err(fault) => Err(fault@),
    }
}

/// The outcome of a pass, as a mathematical value.
pub open spec fn pass_view(outcome: Result<Vec<i32>, String>) -> Result<Seq<i32>, Seq<char>> {
    match outcome {
        Ok(lanes) => Ok(lanes@),
        Err(message) => Err(message@),
    }
}

/// Whether every instruction of the listing is one of the machine. A pass
/// over such a listing goes through the instructions once, in order, up to
/// the first `halt`.
pub open spec fn straight_line(listing: ListingView) -> bool {
    forall|k: int|
        0 <= k < listing.instructions.len() ==> (#[trigger] listing.instructions[k]).spec_operation()
            is Some
}

/// Calls `ternsig::tensor_isa::assemble` and hands its result on field by
/// field: of each register its name, type code and shape, of each
/// instruction its five fields. The result depends on the text alone. The
/// assembler cuts the sizes of a declaration out between the first `[` and
/// the first `]` behind the colon, and panics where that `]` comes first:
/// hence the condition on the text.
#[verifier::external_body]
pub(crate) fn assemble_text(source: &str) -> (outcome: Result<ProgramListing, SourceFault>)
    requires
        brackets_in_order(source.spec_bytes()),
    ensures
        assembly_view(outcome) == assembled(source@),
{
    let program = match ternsig::tensor_isa::assemble(source) {
        Ok(program) => program,
        Err(error) => return Err(SourceFault { line: error.line, message: error.message }),
    };
    let registers = program.registers.iter().map(
        |r| RegisterDecl { id: r.id.0, dtype: r.dtype as u8, shape: r.shape.clone() },
    ).collect();
    let instructions = program.instructions.iter().map(
        |i| Instruction { opcode: i.action.0, target: i.target.0, source: i.source.0, aux: i.aux, modifier: i.modifier },
    ).collect();
    Ok(ProgramListing { registers, instructions })
}

/// Calls `TensorInterpreter::from_program` on the listing, handed over field
/// by field. The interpreter allocates each declared register, all lanes
/// zero; the product of the sizes must not overflow, which holds of lane
/// registers.
#[verifier::external_body]
pub(crate) fn new_interpreter(listing: &ProgramListing) -> (interp: TensorInterpreter)
    requires
        listing@.registers_sound(),
    ensures
        loaded_listing(interp) == listing@,
{
    let registers = listing.registers.iter().map(
        |r| RegisterMeta::with_shape(TensorRegister(r.id), r.shape.clone(), TensorDtype::from_u8(r.dtype)),
    ).collect();
    let instructions = listing.instructions.iter().map(
        |i| TensorInstruction::new(TensorAction(i.opcode), TensorRegister(i.target), TensorRegister(i.source), i.aux, i.modifier),
    ).collect();
    let (name, labels, input_shape, output_shape) = (String::new(), HashMap::new(), Vec::new(), Vec::new());
    TensorInterpreter::from_program(
        &AssembledProgram { name, registers, instructions, labels, input_shape, output_shape },
    )
}

/// Calls `TensorInterpreter::forward_i32` on an interpreter that has run
/// nothing yet, and gives the interpreter up. The result depends on the
/// listing and the input alone. The operations of the machine neither jump
/// nor panic, so the pass ends.
#[verifier::external_body]
pub(crate) fn run_pass(interp: TensorInterpreter, input: &[i32]) -> (outcome: Result<
    Vec<i32>,
    String,
>)
    requires
        straight_line(loaded_listing(interp)),
    ensures
        pass_view(outcome) == pass_result(loaded_listing(interp), input@),
{
    let mut interp = interp;
    interp.forward_i32(input)
}

/// Calls `String::push`, which appends one character to the string.
#[verifier::external_body]
pub(crate) fn push_char(text: &mut String, c: char)
    ensures
        final(text)@ == old(text)@.push(c),
{
    text.push(c);
}

} // verus!
