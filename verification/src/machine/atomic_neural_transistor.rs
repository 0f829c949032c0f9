//! The atomic neural transistor: a checked program and its forward pass.

use vstd::prelude::*;
use crate::machine::engine::{
    assembled, new_interpreter, pass_result, pass_view, run_pass, straight_line,
};
use crate::machine::error::{AntError, AntErrorView, AssemblyErrorView};
use crate::machine::program::{assemble, assembles_to, prepared, AssembledProgram};
use crate::machine::rules::ListingView;
use crate::signal::TernarySignal;

verus! {

/// The message for an output that does not have the declared length.
pub open spec fn length_message() -> Seq<char> {
    "output length differs from the declared shape"@
}

/// What a pass returns, given what the interpreter made of it: its lanes
/// where they have the declared length, and an execution error for lanes of
/// another length or for a message of the interpreter.
pub open spec fn settled(made: Result<Seq<i32>, Seq<char>>, output_dim: nat) -> Result<
    Seq<i32>,
    AntErrorView,
> {
    match made {
        Ok(lanes) => if lanes.len() == output_dim {
            Ok(lanes)
        } else {
            Err(AntErrorView::Execution(length_message()))
        },
        Err(message) => Err(AntErrorView::Execution(message)),
    }
}

/// What a pass on integers returns: a shape mismatch, with both lengths, for
/// an input that does not have the declared length, and else what the
/// interpreter makes of program and input, settled.
pub open spec fn integer_pass(program: ListingView, input: Seq<i32>) -> Result<
    Seq<i32>,
    AntErrorView,
> {
    if input.len() != program.input_dim() {
        Err(
            AntErrorView::ShapeMismatch {
                expected: program.input_dim() as usize,
                got: input.len() as usize,
            },
        )
    } else {
        settled(pass_result(program, input), program.output_dim())
    }
}

/// The integers that signals stand for.
pub open spec fn decoded(signals: Seq<TernarySignal>) -> Seq<i32> {
    Seq::new(signals.len(), |i: int| signals[i].value() as i32)
}

/// The signals nearest to integers.
pub open spec fn encoded(lanes: Seq<i32>) -> Seq<TernarySignal> {
    Seq::new(lanes.len(), |i: int| TernarySignal::nearest(lanes[i] as int))
}

/// What a pass on signals returns: the pass on the integers that the
/// signals stand for, each lane of its output as the nearest signal.
pub open spec fn signal_pass(program: ListingView, input: Seq<TernarySignal>) -> Result<
    Seq<TernarySignal>,
    AntErrorView,
> {
    match integer_pass(program, decoded(input)) {
        Ok(lanes) => Ok(encoded(lanes)),
        Err(error) => Err(error),
    }
}

/// The outcome of a pass on integers as a mathematical value.
pub open spec fn integer_view(outcome: Result<Vec<i32>, AntError>) -> Result<
    Seq<i32>,
    AntErrorView,
> {
    match outcome {
        Ok(lanes) => Ok(lanes@),
        Err(error) => Err(error@),
    }
}

/// The outcome of a pass on signals as a mathematical value.
pub open spec fn signal_view(outcome: Result<Vec<TernarySignal>, AntError>) -> Result<
    Seq<TernarySignal>,
    AntErrorView,
> {
    match outcome {
        Ok(signals) => Ok(signals@),
        Err(error) => Err(error@),
    }
}

/// Settles what the interpreter made of a pass: the lanes, if they have the
/// declared length, and an execution error otherwise.
pub fn settle(made: Result<Vec<i32>, String>, output_dim: usize) -> (outcome: Result<
    Vec<i32>,
    AntError,
>)
    ensures
        integer_view(outcome) == settled(pass_view(made), output_dim as nat),
{
    match made {
        Ok(lanes) => {
            if lanes.len() == output_dim {
                Ok(lanes)
            } else {
                Err(
                    AntError::Execution(
                        String::from_str("output length differs from the declared shape"),
                    ),
                )
            }
        },
        Err(message) => Err(AntError::Execution(message)),
    }
}

/// The integers that signals stand for.
pub fn decode_all(signals: &[TernarySignal]) -> (lanes: Vec<i32>)
    ensures
        lanes@ == decoded(signals@),
{
    let mut lanes: Vec<i32> = Vec::new();
    let mut i: usize = 0;
    while i < signals.len()
        invariant
            0 <= i <= signals.len(),
            lanes.len() == i,
            forall|j: int| 0 <= j < i ==> lanes[j] == signals[j].value(),
        decreases signals.len() - i,
    {
        lanes.push(signals[i].as_signed_integer());
        i = i + 1;
    }
    assert(lanes@ =~= decoded(signals@));
    lanes
}

/// The signals nearest to integers.
pub fn encode_all(lanes: &[i32]) -> (signals: Vec<TernarySignal>)
    ensures
        signals@ == encoded(lanes@),
{
    let mut signals: Vec<TernarySignal> = Vec::new();
    let mut i: usize = 0;
    while i < lanes.len()
        invariant
            0 <= i <= lanes.len(),
            signals.len() == i,
            forall|j: int| 0 <= j < i ==> signals[j] == TernarySignal::nearest(lanes[j] as int),
        decreases lanes.len() - i,
    {
        signals.push(TernarySignal::from_signed_integer(lanes[i]));
        i = i + 1;
    }
    assert(signals@ =~= encoded(lanes@));
    signals
}

/// An atomic neural transistor: one checked program, run from zeroed
/// registers on every forward pass.
#[derive(Debug)]
pub struct AtomicNeuralTransistor {
    program: AssembledProgram,
    input_dim: usize,
    output_dim: usize,
}

impl View for AtomicNeuralTransistor {
    type V = ListingView;

    closed spec fn view(&self) -> ListingView {
        self.program@
    }
}

/// The outcome of making a unit as a mathematical value.
pub open spec fn unit_view(outcome: Result<AtomicNeuralTransistor, AntError>) -> Result<
    ListingView,
    AntErrorView,
> {
    match outcome {
        Ok(unit) => Ok(unit@),
        Err(error) => Err(error@),
    }
}

/// An assembly outcome as the outcome of making a unit.
pub open spec fn as_unit_outcome(outcome: Result<ListingView, AntErrorView>) -> Result<
    ListingView,
    AssemblyErrorView,
>
    recommends
        outcome matches Err(error) ==> error is Assembly,
{
    match outcome {
        Ok(program) => Ok(program),
        Err(error) => Err(error->Assembly_0),
    }
}

impl AtomicNeuralTransistor {
    #[verifier::type_invariant]
    spec fn well_formed(self) -> bool {
        &&& self.input_dim == self.program@.input_dim()
        &&& self.output_dim == self.program@.output_dim()
    }

    /// Assembles a source text and makes a unit of the program. Every
    /// failure is an assembly error, the one that `assemble` gives.
    pub fn from_source(source: &str) -> (outcome: Result<Self, AntError>)
        ensures
            outcome matches Err(error) ==> error@ is Assembly,
            assembles_to(
                prepared(source@),
                assembled(prepared(source@)),
                as_unit_outcome(unit_view(outcome)),
            ),
    {
        match assemble(source) {
            Ok(program) => Self::from_program(&program),
            Err(error) => Err(AntError::Assembly(error)),
        }
    }

    /// Makes a unit of a program. This never fails.
    pub fn from_program(program: &AssembledProgram) -> (outcome: Result<Self, AntError>)
        ensures
            outcome matches Ok(unit) && unit@ == program@,
    {
        let input_dim = program.input_dim();
        let output_dim = program.output_dim();
        let copy = program.clone();
        Ok(AtomicNeuralTransistor { program: copy, input_dim, output_dim })
    }

    /// One forward pass on signals. The unit is the same after the pass as
    /// before: no pass leaves anything for the next.
    pub fn forward(&mut self, input: &[TernarySignal]) -> (outcome: Result<
        Vec<TernarySignal>,
        AntError,
    >)
        ensures
            final(self)@ == old(self)@,
            signal_view(outcome) == signal_pass(old(self)@, input@),
    {
        let lanes = decode_all(input);
        match self.forward_i32(lanes.as_slice()) {
            Ok(output) => Ok(encode_all(output.as_slice())),
            Err(error) => Err(error),
        }
    }

    /// One forward pass on integers. The unit is the same after the pass as
    /// before: no pass leaves anything for the next.
    pub fn forward_i32(&mut self, input: &[i32]) -> (outcome: Result<Vec<i32>, AntError>)
        ensures
            final(self)@ == old(self)@,
            integer_view(outcome) == integer_pass(old(self)@, input@),
    {
        proof {
            use_type_invariant(&*self);
        }
        if input.len() != self.input_dim {
            return Err(AntError::ShapeMismatch { expected: self.input_dim, got: input.len() });
        }
        let listing = self.program.listing();
        proof {
            lemma_valid_runs(listing@);
        }
        let interp = new_interpreter(listing);
        settle(run_pass(interp, input), self.output_dim)
    }

    /// Length of the input of a pass.
    pub fn input_dim(&self) -> (n: usize)
        ensures
            n == self@.input_dim(),
    {
        proof {
            use_type_invariant(self);
        }
        self.input_dim
    }

    /// Length of the output of a pass.
    pub fn output_dim(&self) -> (n: usize)
        ensures
            n == self@.output_dim(),
    {
        proof {
            use_type_invariant(self);
        }
        self.output_dim
    }
}

/// A program has lane registers only, and every instruction is one of the
/// machine.
pub proof fn lemma_valid_runs(program: ListingView)
    requires
        program.is_valid(),
    ensures
        program.registers_sound(),
        straight_line(program),
{
    assert forall|k: int| 0 <= k < program.instructions.len() implies (
    #[trigger] program.instructions[k]).spec_operation() is Some by {
        assert(program.instruction_sound(k));
    }
}

} // verus!
