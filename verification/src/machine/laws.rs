//! What holds of assembling and of forward passes, whatever the text, the
//! program and the input.

use vstd::prelude::*;
use vstd::utf8::encode_utf8;
use crate::machine::atomic_neural_transistor::{decoded, encoded, integer_pass, signal_pass};
use crate::machine::engine::SourceFaultView;
use crate::machine::error::{AntErrorView, AssemblyErrorView};
use crate::machine::listing::Operation;
use crate::machine::program::assembles_to;
use crate::machine::rules::ListingView;
use crate::machine::text::{disordered_at, first_disorder};
use crate::signal::{lemma_value_sign, TernarySignal, MAX_MAGNITUDE};

verus! {

/// A listing owes one error at most, and a program owes none.
pub proof fn lemma_reports_one(listing: ListingView, first: AssemblyErrorView, second: AssemblyErrorView)
    requires
        listing.reports(first),
        listing.reports(second),
    ensures
        first == second,
        !listing.is_valid(),
{
    if !listing.names_distinct() {
        let i = choose|i: int|
            {
                &&& 0 <= i < listing.registers.len()
                &&& #[trigger] listing.repeats(i)
                &&& forall|j: int| 0 <= j < i ==> !#[trigger] listing.repeats(j)
                &&& first == AssemblyErrorView::DuplicateRegister {
                    register: listing.registers[i].id,
                }
            };
        let k = choose|k: int|
            {
                &&& 0 <= k < listing.registers.len()
                &&& #[trigger] listing.repeats(k)
                &&& forall|j: int| 0 <= j < k ==> !#[trigger] listing.repeats(j)
                &&& second == AssemblyErrorView::DuplicateRegister {
                    register: listing.registers[k].id,
                }
            };
        assert(i == k) by {
            if i < k {
                assert(!listing.repeats(i));
            } else if k < i {
                assert(!listing.repeats(k));
            }
        }
    } else if !listing.registers_sound() {
        let i = choose|i: int|
            {
                &&& 0 <= i < listing.registers.len()
                &&& !(#[trigger] listing.registers[i]).is_lane_register()
                &&& forall|j: int|
                    0 <= j < i ==> (#[trigger] listing.registers[j]).is_lane_register()
                &&& first == AssemblyErrorView::InvalidRegister {
                    register: listing.registers[i].id,
                }
            };
        let k = choose|k: int|
            {
                &&& 0 <= k < listing.registers.len()
                &&& !(#[trigger] listing.registers[k]).is_lane_register()
                &&& forall|j: int|
                    0 <= j < k ==> (#[trigger] listing.registers[j]).is_lane_register()
                &&& second == AssemblyErrorView::InvalidRegister {
                    register: listing.registers[k].id,
                }
            };
        assert(i == k) by {
            if i < k {
                assert(listing.registers[i].is_lane_register());
            } else if k < i {
                assert(listing.registers[k].is_lane_register());
            }
        }
    } else if !listing.instructions_sound() {
        let i = choose|i: int|
            {
                &&& 0 <= i < listing.instructions.len()
                &&& #[trigger] listing.instruction_fault(i) == Some(first)
                &&& forall|j: int| 0 <= j < i ==> #[trigger] listing.instruction_sound(j)
            };
        let k = choose|k: int|
            {
                &&& 0 <= k < listing.instructions.len()
                &&& #[trigger] listing.instruction_fault(k) == Some(second)
                &&& forall|j: int| 0 <= j < k ==> #[trigger] listing.instruction_sound(j)
            };
        assert(i == k) by {
            if i < k {
                assert(listing.instruction_sound(i));
            } else if k < i {
                assert(listing.instruction_sound(k));
            }
        }
    }
}

/// A text has one first line with brackets out of order at most.
pub proof fn lemma_first_disorder_one(text: Seq<u8>, first: usize, second: usize)
    requires
        first_disorder(text, first),
        first_disorder(text, second),
    ensures
        first == second,
{
    let i = choose|i: int|
        {
            &&& #[trigger] disordered_at(text, i)
            &&& forall|e: int| e < i ==> !#[trigger] disordered_at(text, e)
            &&& first == crate::machine::text::line_ends_before(text, i) + 1
        };
    let k = choose|k: int|
        {
            &&& #[trigger] disordered_at(text, k)
            &&& forall|e: int| e < k ==> !#[trigger] disordered_at(text, e)
            &&& second == crate::machine::text::line_ends_before(text, k) + 1
        };
    if i < k {
        assert(!disordered_at(text, i));
    } else if k < i {
        assert(!disordered_at(text, k));
    }
}

/// Assembling is a function of the text: what it gives for a text and for
/// what the assembler makes of the text, it gives every time.
pub proof fn lemma_assembly_deterministic(
    text: Seq<char>,
    made: Result<ListingView, SourceFaultView>,
    first: Result<ListingView, AssemblyErrorView>,
    second: Result<ListingView, AssemblyErrorView>,
)
    requires
        assembles_to(text, made, first),
        assembles_to(text, made, second),
    ensures
        first == second,
{
    if !crate::machine::text::brackets_in_order(encode_utf8(text)) {
        lemma_first_disorder_one(
            encode_utf8(text),
            first->Err_0->Parse_line,
            second->Err_0->Parse_line,
        );
    } else {
        match made {
            Err(fault) => {},
            Ok(listing) => {
                if !listing.is_valid() {
                    lemma_reports_one(listing, first->Err_0, second->Err_0);
                }
            },
        }
    }
}

/// A forward pass is a function of program and input: units of the same
/// program give the same outcome on the same input, on signals and on
/// integers, on the first pass and on every later one.
pub proof fn lemma_pass_deterministic(
    first: ListingView,
    second: ListingView,
    signals: Seq<TernarySignal>,
    lanes: Seq<i32>,
)
    requires
        first == second,
    ensures
        signal_pass(first, signals) == signal_pass(second, signals),
        integer_pass(first, lanes) == integer_pass(second, lanes),
{
}

/// What two units of one program return when each runs a pass on its own
/// input: each what `forward_i32` states of it.
pub open spec fn side_by_side(program: ListingView, mine: Seq<i32>, theirs: Seq<i32>) -> (
    Result<Seq<i32>, AntErrorView>,
    Result<Seq<i32>, AntErrorView>,
) {
    (integer_pass(program, mine), integer_pass(program, theirs))
}

/// Units of one program do not see each other: what a unit returns on its
/// input is the same whatever the other unit runs on.
pub proof fn lemma_units_independent(
    program: ListingView,
    mine: Seq<i32>,
    theirs: Seq<i32>,
    others: Seq<i32>,
)
    ensures
        side_by_side(program, mine, theirs).0 == side_by_side(program, mine, others).0,
        side_by_side(program, theirs, mine).1 == side_by_side(program, others, mine).1,
{
}

/// The length of the input is enforced: a pass fails with a shape mismatch,
/// which carries both lengths, exactly when the input does not have the
/// declared length; and an output has the declared length.
pub proof fn lemma_shape_enforced(program: ListingView, input: Seq<i32>)
    ensures
        input.len() != program.input_dim() <==> integer_pass(program, input) matches Err(
            AntErrorView::ShapeMismatch { .. },
        ),
        input.len() != program.input_dim() ==> integer_pass(program, input) == Err::<
            Seq<i32>,
            AntErrorView,
        >(
            AntErrorView::ShapeMismatch {
                expected: program.input_dim() as usize,
                got: input.len() as usize,
            },
        ),
        integer_pass(program, input) matches Ok(lanes) ==> lanes.len() == program.output_dim(),
{
}

/// The same for a pass on signals.
pub proof fn lemma_signal_shape_enforced(program: ListingView, input: Seq<TernarySignal>)
    ensures
        input.len() != program.input_dim() <==> signal_pass(program, input) matches Err(
            AntErrorView::ShapeMismatch { .. },
        ),
        signal_pass(program, input) matches Ok(signals) ==> signals.len() == program.output_dim(),
{
    lemma_shape_enforced(program, decoded(input));
}

/// The two entry points agree: a pass on signals fails as the pass on the
/// integers that they stand for, and else returns the nearest signals of
/// its lanes; where every lane lies within the range of a signal, these
/// stand for the lanes exactly.
pub proof fn lemma_entry_points_agree(program: ListingView, input: Seq<TernarySignal>)
    ensures
        match integer_pass(program, decoded(input)) {
            Ok(lanes) => signal_pass(program, input) == Ok::<Seq<TernarySignal>, AntErrorView>(
                encoded(lanes),
            ) && ((forall|i: int|
                0 <= i < lanes.len() ==> -MAX_MAGNITUDE <= #[trigger] lanes[i] <= MAX_MAGNITUDE)
                ==> decoded(encoded(lanes)) == lanes),
            Err(error) => signal_pass(program, input) == Err::<Seq<TernarySignal>, AntErrorView>(
                error,
            ),
        },
{
    match integer_pass(program, decoded(input)) {
        Ok(lanes) => {
            if forall|i: int|
                0 <= i < lanes.len() ==> -MAX_MAGNITUDE <= #[trigger] lanes[i] <= MAX_MAGNITUDE {
                assert forall|i: int| 0 <= i < lanes.len() implies decoded(encoded(lanes))[i]
                    == lanes[i] by {
                    assert(-MAX_MAGNITUDE <= lanes[i] <= MAX_MAGNITUDE);
                    lemma_value_sign(TernarySignal::nearest(lanes[i] as int));
                }
                assert(decoded(encoded(lanes)) =~= lanes);
            }
        },
        Err(error) => {},
    }
}

/// A listing that declares a name twice is no program, and the error owed
/// for it is the duplicate register, whatever else is wrong with it.
pub proof fn lemma_duplicate_rejected(listing: ListingView, i: int, error: AssemblyErrorView)
    requires
        0 <= i < listing.registers.len(),
        listing.repeats(i),
    ensures
        !listing.is_valid(),
        listing.reports(error) ==> error is DuplicateRegister,
{
}

/// A listing that does not end with `halt` is no program; where nothing
/// else is wrong with it, the error owed is the missing halt.
pub proof fn lemma_missing_halt_rejected(listing: ListingView, error: AssemblyErrorView)
    requires
        !listing.ends_with_halt(),
    ensures
        !listing.is_valid(),
        listing.names_distinct() && listing.registers_sound() && listing.instructions_sound()
            && listing.has_op(Operation::LoadInput) && listing.has_op(Operation::StoreOutput)
            && listing.reports(error) ==> error == AssemblyErrorView::MissingHalt,
{
}

/// A listing with an instruction of the machine that names a register which
/// is not declared is no program; where nothing before that instruction is
/// wrong, the error owed is the unknown register, with the instruction.
pub proof fn lemma_unknown_register_rejected(listing: ListingView, k: int, error: AssemblyErrorView)
    requires
        0 <= k < listing.instructions.len(),
        listing.instruction_fault(k) is Some,
        listing.instruction_fault(k)->Some_0 is UnknownRegister,
    ensures
        !listing.is_valid(),
        listing.names_distinct() && listing.registers_sound() && (forall|j: int|
            0 <= j < k ==> #[trigger] listing.instruction_sound(j)) && listing.reports(error)
            ==> error == listing.instruction_fault(k)->Some_0,
{
    assert(!listing.instruction_sound(k));
    if listing.names_distinct() && listing.registers_sound() && (forall|j: int|
        0 <= j < k ==> #[trigger] listing.instruction_sound(j)) && listing.reports(error) {
        let i = choose|i: int|
            {
                &&& 0 <= i < listing.instructions.len()
                &&& #[trigger] listing.instruction_fault(i) == Some(error)
                &&& forall|j: int| 0 <= j < i ==> #[trigger] listing.instruction_sound(j)
            };
        if i < k {
            assert(listing.instruction_sound(i));
        } else if k < i {
            assert(listing.instruction_sound(k));
        }
    }
}

/// Nothing that fails to assemble gives a program: the outcome for a text
/// whose listing breaks a rule is an error.
pub proof fn lemma_no_program_of_a_faulty_listing(
    text: Seq<char>,
    listing: ListingView,
    outcome: Result<ListingView, AssemblyErrorView>,
)
    requires
        assembles_to(text, Ok(listing), outcome),
        !listing.is_valid(),
    ensures
        outcome is Err,
{
}

} // verus!
