//! The assembler: from a source text to a checked program.

use vstd::prelude::*;
use crate::machine::engine::{assemble_text, assembled, SourceFault, SourceFaultView};
use crate::machine::error::{AssemblyError, AssemblyErrorView};
use crate::machine::listing::{copy_shape, lane_count, Operation};
use crate::machine::rules::{
    check_listing, find_register, first_instruction, lemma_first_op, lemma_shape_of, ListingView,
    ProgramListing,
};
use crate::machine::text::{brackets_in_order, find_disorder, first_disorder, join_brackets, joined};
use vstd::utf8::encode_utf8;

verus! {

/// How the assembler's message starts where it does not know a mnemonic.
pub open spec fn unknown_mnemonic() -> Seq<char> {
    "Unknown mnemonic"@
}

/// The message for a line whose brackets are out of order.
pub open spec fn bracket_message() -> Seq<char> {
    "']' before '['"@
}

/// The error for a refusal of the assembler: an unknown mnemonic where the
/// message starts so, a parse error for every other message.
pub open spec fn fault_error(fault: SourceFaultView) -> AssemblyErrorView {
    if unknown_mnemonic().is_prefix_of(fault.message) {
        AssemblyErrorView::UnknownMnemonic { line: fault.line, message: fault.message }
    } else {
        AssemblyErrorView::Parse { line: fault.line, message: fault.message }
    }
}

/// Whether `text` starts with `prefix`.
pub fn starts_with(text: &str, prefix: &str) -> (yes: bool)
    ensures
        yes == prefix@.is_prefix_of(text@),
{
    let length = prefix.unicode_len();
    if text.unicode_len() < length {
        return false;
    }
    let mut i: usize = 0;
    while i < length
        invariant
            0 <= i <= length,
            length == prefix@.len(),
            length <= text@.len(),
            forall|j: int| 0 <= j < i ==> text@[j] == prefix@[j],
        decreases length - i,
    {
        if text.get_char(i) != prefix.get_char(i) {
            assert(text@.subrange(0, length as int)[i as int] != prefix@[i as int]);
            return false;
        }
        i = i + 1;
    }
    assert(prefix@ =~= text@.subrange(0, length as int));
    true
}

/// The error for a refusal of the assembler.
pub fn classify_fault(fault: SourceFault) -> (error: AssemblyError)
    ensures
        error@ == fault_error(fault@),
{
    if starts_with(fault.message.as_str(), "Unknown mnemonic") {
        AssemblyError::UnknownMnemonic { line: fault.line, message: fault.message }
    } else {
        AssemblyError::Parse { line: fault.line, message: fault.message }
    }
}

/// A program of the machine: a listing that keeps every static rule, with
/// the lengths of its input and output. It cannot be changed once made.
#[derive(Debug)]
pub struct AssembledProgram {
    listing: ProgramListing,
    input_dim: usize,
    output_dim: usize,
}

impl View for AssembledProgram {
    type V = ListingView;

    closed spec fn view(&self) -> ListingView {
        self.listing@
    }
}

impl Clone for AssembledProgram {
    /// A copy of the program.
    fn clone(&self) -> (copy: Self)
        ensures
            copy@ == self@,
    {
        proof {
            use_type_invariant(self);
        }
        AssembledProgram {
            listing: self.listing.clone(),
            input_dim: self.input_dim,
            output_dim: self.output_dim,
        }
    }
}

impl AssembledProgram {
    #[verifier::type_invariant]
    spec fn well_formed(self) -> bool {
        &&& self.listing@.is_valid()
        &&& self.input_dim == self.listing@.input_dim()
        &&& self.output_dim == self.listing@.output_dim()
    }

    /// Makes a program of a listing that keeps the rules, and says which
    /// rule any other listing breaks.
    pub fn new(listing: ProgramListing) -> (r: Result<Self, AssemblyError>)
        ensures
            r is Ok <==> listing@.is_valid(),
            r matches Ok(program) ==> program@ == listing@,
            r matches Err(error) ==> listing@.reports(error@),
    {
        match check_listing(&listing) {
            Ok(()) => {},
            Err(error) => {
                return Err(error);
            },
        }
        let input_dim = register_lanes(&listing, true);
        let output_dim = register_lanes(&listing, false);
        Ok(AssembledProgram { listing, input_dim, output_dim })
    }

    /// The listing of the program. It keeps every rule.
    pub fn listing(&self) -> (listing: &ProgramListing)
        ensures
            listing@ == self@,
            self@.is_valid(),
    {
        proof {
            use_type_invariant(self);
        }
        &self.listing
    }

    /// Length of the input of a pass: the lanes of the input register.
    pub fn input_dim(&self) -> (n: usize)
        ensures
            n == self@.input_dim(),
    {
        proof {
            use_type_invariant(self);
        }
        self.input_dim
    }

    /// Length of the output of a pass: the lanes of the output register.
    pub fn output_dim(&self) -> (n: usize)
        ensures
            n == self@.output_dim(),
    {
        proof {
            use_type_invariant(self);
        }
        self.output_dim
    }

    /// Name of the input register: the target of the first `load_input`.
    pub fn input_register(&self) -> (id: u8)
        ensures
            id == self@.input_register(),
    {
        proof {
            use_type_invariant(self);
        }
        let at = io_register(&self.listing, true);
        self.listing.registers[at].id
    }

    /// Name of the output register: the source of the first `store_output`.
    pub fn output_register(&self) -> (id: u8)
        ensures
            id == self@.output_register(),
    {
        proof {
            use_type_invariant(self);
        }
        let at = io_register(&self.listing, false);
        self.listing.registers[at].id
    }

    /// The shape of the input register.
    pub fn input_shape(&self) -> (shape: Vec<usize>)
        ensures
            shape@ == self@.shape_of(self@.input_register()),
    {
        proof {
            use_type_invariant(self);
        }
        let at = io_register(&self.listing, true);
        copy_shape(&self.listing.registers[at].shape)
    }

    /// The shape of the output register.
    pub fn output_shape(&self) -> (shape: Vec<usize>)
        ensures
            shape@ == self@.shape_of(self@.output_register()),
    {
        proof {
            use_type_invariant(self);
        }
        let at = io_register(&self.listing, false);
        copy_shape(&self.listing.registers[at].shape)
    }
}

/// Index of the declaration of the input register, or of the output
/// register, of a program.
fn io_register(listing: &ProgramListing, input: bool) -> (at: usize)
    requires
        listing@.is_valid(),
    ensures
        at < listing.registers.len(),
        listing.registers[at as int]@.is_lane_register(),
        input ==> listing.registers[at as int].id == listing@.input_register()
            && listing.registers[at as int].shape@ == listing@.shape_of(listing@.input_register()),
        !input ==> listing.registers[at as int].id == listing@.output_register()
            && listing.registers[at as int].shape@ == listing@.shape_of(
            listing@.output_register(),
        ),
{
    let ghost view = listing@;
    let op = if input {
        Operation::LoadInput
    } else {
        Operation::StoreOutput
    };
    match first_instruction(listing, op) {
        Some(k) => {
            proof {
                lemma_first_op(view, k as int, op);
                assert(view.instruction_sound(k as int));
            }
            let id = if input {
                listing.instructions[k].target
            } else {
                listing.instructions[k].source
            };
            match find_register(&listing.registers, id) {
                Some(at) => {
                    proof {
                        assert(view.registers[at as int].id == id);
                        lemma_shape_of(view, at as int);
                        assert(view.registers[at as int].is_lane_register());
                    }
                    at
                },
                None => {
                    proof {
                        assert(view.declares(id));
                        let i = choose|i: int|
                            0 <= i < view.registers.len() && #[trigger] view.registers[i].id == id;
                        assert(listing.registers[i].id == id);
                    }
                    0
                },
            }
        },
        None => {
            proof {
                assert(false);
            }
            0
        },
    }
}

/// Lanes of the input register, or of the output register, of a program.
fn register_lanes(listing: &ProgramListing, input: bool) -> (n: usize)
    requires
        listing@.is_valid(),
    ensures
        input ==> n == listing@.input_dim(),
        !input ==> n == listing@.output_dim(),
{
    let at = io_register(listing, input);
    match lane_count(&listing.registers[at].shape) {
        Some(n) => n,
        None => 0,
    }
}

/// What assembling gives, from the text that goes to the assembler and from
/// what the assembler makes of it: a text with brackets out of order is
/// refused with its line; a text that the assembler refuses, with the
/// assembler's line and message; a listing that breaks a rule, with the error
/// owed for it; and a listing that keeps the rules is the program.
pub open spec fn assembles_to(
    text: Seq<char>,
    made: Result<ListingView, SourceFaultView>,
    outcome: Result<ListingView, AssemblyErrorView>,
) -> bool {
    if !brackets_in_order(encode_utf8(text)) {
        outcome matches Err(AssemblyErrorView::Parse { line, message }) && first_disorder(
            encode_utf8(text),
            line,
        ) && message == bracket_message()
    } else {
        match made {
            Err(fault) => outcome == Err::<ListingView, AssemblyErrorView>(fault_error(fault)),
            Ok(listing) => match outcome {
                Ok(program) => listing.is_valid() && program == listing,
                Err(error) => !listing.is_valid() && listing.reports(error),
            },
        }
    }
}

/// The text that goes to the assembler: the source with the sizes of each
/// register joined into one pair of brackets.
pub open spec fn prepared(source: Seq<char>) -> Seq<char> {
    joined(source, false)
}

/// The outcome of `assemble` as a mathematical value.
pub open spec fn outcome_view(outcome: Result<AssembledProgram, AssemblyError>) -> Result<
    ListingView,
    AssemblyErrorView,
> {
    match outcome {
        Ok(program) => Ok(program@),
        Err(error) => Err(error@),
    }
}

/// Assembles a source text into a program, or says why it is none.
pub fn assemble(source: &str) -> (outcome: Result<AssembledProgram, AssemblyError>)
    ensures
        assembles_to(prepared(source@), assembled(prepared(source@)), outcome_view(outcome)),
{
    let text = join_brackets(source);
    match find_disorder(text.as_str().as_bytes()) {
        Some(line) => {
            return Err(
                AssemblyError::Parse { line, message: String::from_str("']' before '['") },
            );
        },
        None => {},
    }
    match assemble_text(text.as_str()) {
        Ok(listing) => AssembledProgram::new(listing),
        Err(fault) => Err(classify_fault(fault)),
    }
}

} // verus!
