//! The static rules of the machine: when a listing is a program, and which
//! error is owed when it is not.

use vstd::prelude::*;
use crate::machine::error::{AssemblyError, AssemblyErrorView};
use crate::machine::listing::{
    lane_count, same_shape, lanes, Instruction, Operation, RegisterDecl, RegisterView,
    OP_HALT, LANE_REGISTERS, DTYPE_I32,
};

verus! {

/// What the assembler makes of a source text: the declarations and the
/// instructions, each in the order of the text.
#[derive(Debug)]
pub struct ProgramListing {
    /// The register declarations.
    pub registers: Vec<RegisterDecl>,
    /// The instructions.
    pub instructions: Vec<Instruction>,
}

/// A listing as a mathematical value.
pub struct ListingView {
    /// The register declarations.
    pub registers: Seq<RegisterView>,
    /// The instructions.
    pub instructions: Seq<Instruction>,
}

impl View for ProgramListing {
    type V = ListingView;

    open spec fn view(&self) -> ListingView {
        ListingView {
            registers: Seq::new(self.registers@.len(), |i: int| self.registers@[i]@),
            instructions: self.instructions@,
        }
    }
}

impl Clone for ProgramListing {
    /// A copy with the same declarations and instructions.
    fn clone(&self) -> (copy: Self)
        ensures
            copy@ == self@,
    {
        let mut registers: Vec<RegisterDecl> = Vec::new();
        let mut i: usize = 0;
        while i < self.registers.len()
            invariant
                0 <= i <= self.registers.len(),
                registers.len() == i,
                forall|a: int| 0 <= a < i ==> registers[a]@ == self.registers[a]@,
            decreases self.registers.len() - i,
        {
            registers.push(self.registers[i].clone());
            i = i + 1;
        }
        let mut instructions: Vec<Instruction> = Vec::new();
        let mut k: usize = 0;
        while k < self.instructions.len()
            invariant
                0 <= k <= self.instructions.len(),
                instructions@ == self.instructions@.take(k as int),
            decreases self.instructions.len() - k,
        {
            instructions.push(self.instructions[k]);
            k = k + 1;
            assert(instructions@ =~= self.instructions@.take(k as int));
        }
        assert(self.instructions@.take(k as int) =~= self.instructions@);
        let copy = ProgramListing { registers, instructions };
        assert(copy@.registers =~= self@.registers);
        copy
    }
}

impl ListingView {
    /// Whether a register of that name is declared.
    pub open spec fn declares(self, id: u8) -> bool {
        exists|i: int| 0 <= i < self.registers.len() && #[trigger] self.registers[i].id == id
    }

    /// Whether declaration `i` repeats the name of an earlier one.
    pub open spec fn repeats(self, i: int) -> bool {
        exists|j: int| 0 <= j < i && #[trigger] self.registers[j].id == self.registers[i].id
    }

    /// Whether no name is declared twice.
    pub open spec fn names_distinct(self) -> bool {
        forall|i: int| 0 <= i < self.registers.len() ==> !#[trigger] self.repeats(i)
    }

    /// Whether every declaration is one of a lane register.
    pub open spec fn registers_sound(self) -> bool {
        forall|i: int|
            0 <= i < self.registers.len() ==> (#[trigger] self.registers[i]).is_lane_register()
    }

    /// The shape declared for a name. It means something where the name is
    /// declared, and once only.
    pub open spec fn shape_of(self, id: u8) -> Seq<usize> {
        let i = choose|i: int| 0 <= i < self.registers.len() && #[trigger] self.registers[i].id == id;
        self.registers[i].shape
    }

    /// Whether instruction `k` is the given operation.
    pub open spec fn op_at(self, k: int, op: Operation) -> bool {
        0 <= k < self.instructions.len() && self.instructions[k].is_op(op)
    }

    /// Whether some instruction is the given operation.
    pub open spec fn has_op(self, op: Operation) -> bool {
        exists|k: int| #[trigger] self.op_at(k, op)
    }

    /// Whether instruction `k` is the first of the given operation.
    pub open spec fn first_op_at(self, k: int, op: Operation) -> bool {
        &&& self.op_at(k, op)
        &&& forall|j: int| 0 <= j < k ==> !#[trigger] self.op_at(j, op)
    }

    /// Index of the first instruction of the given operation, where there
    /// is one.
    pub open spec fn first_op(self, op: Operation) -> int {
        choose|k: int| #[trigger] self.first_op_at(k, op)
    }

    /// The input register: the target of the first `load_input`.
    pub open spec fn input_register(self) -> u8 {
        self.instructions[self.first_op(Operation::LoadInput)].target
    }

    /// The output register: the source of the first `store_output`.
    pub open spec fn output_register(self) -> u8 {
        self.instructions[self.first_op(Operation::StoreOutput)].source
    }

    /// Length of the input of a pass: the lanes of the input register.
    pub open spec fn input_dim(self) -> nat {
        lanes(self.shape_of(self.input_register()))
    }

    /// Length of the output of a pass: the lanes of the output register.
    pub open spec fn output_dim(self) -> nat {
        lanes(self.shape_of(self.output_register()))
    }

    /// Whether the listing ends with `halt`.
    pub open spec fn ends_with_halt(self) -> bool {
        self.op_at(self.instructions.len() - 1, Operation::Halt)
    }

    /// The shape rule of instruction `k`, which is operation `op`: a
    /// lane-by-lane operation and a copy have target and sources of one
    /// shape; `max_reduce` has a target of one lane; every `load_input` has a
    /// target of the input register's shape, and every `store_output` a
    /// source of the output register's shape.
    pub open spec fn shapes_fit(self, k: int, op: Operation) -> bool {
        let ins = self.instructions[k];
        match op {
            Operation::LoadInput => self.shape_of(ins.target) == self.shape_of(
                self.input_register(),
            ),
            Operation::StoreOutput => self.shape_of(ins.source) == self.shape_of(
                self.output_register(),
            ),
            Operation::MaxReduce => lanes(self.shape_of(ins.target)) == 1,
            _ => op.spec_is_lanewise() ==> {
                &&& self.shape_of(ins.source) == self.shape_of(ins.target)
                &&& op.spec_uses_second() ==> self.shape_of(ins.aux) == self.shape_of(ins.target)
            },
        }
    }

    /// What is wrong with instruction `k`, if anything: its code is not one
    /// of the machine or it is a `halt` before the end; else its first
    /// operand, in the order target, source, second source, that is not
    /// declared; else its shape rule.
    pub open spec fn instruction_fault(self, k: int) -> Option<AssemblyErrorView> {
        let ins = self.instructions[k];
        match ins.spec_operation() {
            None => Some(
                AssemblyErrorView::UnsupportedInstruction {
                    instruction: k as usize,
                    opcode: ins.opcode,
                },
            ),
            Some(op) => if op == Operation::Halt && k != self.instructions.len() - 1 {
                Some(
                    AssemblyErrorView::UnsupportedInstruction {
                        instruction: k as usize,
                        opcode: ins.opcode,
                    },
                )
            } else if op.spec_uses_target() && !self.declares(ins.target) {
                Some(
                    AssemblyErrorView::UnknownRegister {
                        instruction: k as usize,
                        register: ins.target,
                    },
                )
            } else if op.spec_uses_source() && !self.declares(ins.source) {
                Some(
                    AssemblyErrorView::UnknownRegister {
                        instruction: k as usize,
                        register: ins.source,
                    },
                )
            } else if op.spec_uses_second() && !self.declares(ins.aux) {
                Some(
                    AssemblyErrorView::UnknownRegister { instruction: k as usize, register: ins.aux },
                )
            } else if !self.shapes_fit(k, op) {
                Some(AssemblyErrorView::ShapeMismatch { instruction: k as usize })
            } else {
                None
            },
        }
    }

    /// Whether instruction `k` breaks no rule.
    pub open spec fn instruction_sound(self, k: int) -> bool {
        self.instruction_fault(k) is None
    }

    /// Whether every instruction keeps the rules.
    pub open spec fn instructions_sound(self) -> bool {
        forall|k: int| 0 <= k < self.instructions.len() ==> #[trigger] self.instruction_sound(k)
    }

    /// Whether the listing is a program of the machine: no name declared
    /// twice, lane registers only, every instruction within the rules, an
    /// input and an output, and a `halt` at the end and nowhere else.
    pub open spec fn is_valid(self) -> bool {
        &&& self.names_distinct()
        &&& self.registers_sound()
        &&& self.instructions_sound()
        &&& self.has_op(Operation::LoadInput)
        &&& self.has_op(Operation::StoreOutput)
        &&& self.ends_with_halt()
    }

    /// Whether `error` is the one owed for the listing. The rules are taken
    /// in this order, and the first that is broken decides: names declared
    /// twice (the first declaration that repeats a name); declarations that
    /// are no lane registers (the first); instructions (the first with a
    /// fault); the missing input or output; the missing `halt`.
    pub open spec fn reports(self, error: AssemblyErrorView) -> bool {
        if !self.names_distinct() {
            exists|i: int|
                {
                    &&& 0 <= i < self.registers.len()
                    &&& #[trigger] self.repeats(i)
                    &&& forall|j: int| 0 <= j < i ==> !#[trigger] self.repeats(j)
                    &&& error == AssemblyErrorView::DuplicateRegister {
                        register: self.registers[i].id,
                    }
                }
        } else if !self.registers_sound() {
            exists|i: int|
                {
                    &&& 0 <= i < self.registers.len()
                    &&& !(#[trigger] self.registers[i]).is_lane_register()
                    &&& forall|j: int|
                        0 <= j < i ==> (#[trigger] self.registers[j]).is_lane_register()
                    &&& error == AssemblyErrorView::InvalidRegister {
                        register: self.registers[i].id,
                    }
                }
        } else if !self.instructions_sound() {
            exists|k: int|
                {
                    &&& 0 <= k < self.instructions.len()
                    &&& #[trigger] self.instruction_fault(k) == Some(error)
                    &&& forall|j: int| 0 <= j < k ==> #[trigger] self.instruction_sound(j)
                }
        } else if !self.has_op(Operation::LoadInput) || !self.has_op(Operation::StoreOutput) {
            error == AssemblyErrorView::MissingIoDeclaration
        } else if !self.ends_with_halt() {
            error == AssemblyErrorView::MissingHalt
        } else {
            false
        }
    }
}

/// Where no name is declared twice, the shape of a name is that of any
/// declaration of it.
pub proof fn lemma_shape_of(view: ListingView, i: int)
    requires
        view.names_distinct(),
        0 <= i < view.registers.len(),
    ensures
        view.declares(view.registers[i].id),
        view.shape_of(view.registers[i].id) == view.registers[i].shape,
{
    let id = view.registers[i].id;
    let c = choose|c: int| 0 <= c < view.registers.len() && #[trigger] view.registers[c].id == id;
    if c < i {
        assert(view.repeats(i));
    } else if i < c {
        assert(view.repeats(c));
    }
}

/// The first instruction of an operation is the only index that
/// `first_op_at` holds of.
pub proof fn lemma_first_op(view: ListingView, k: int, op: Operation)
    requires
        view.first_op_at(k, op),
    ensures
        view.has_op(op),
        view.first_op(op) == k,
{
    let c = view.first_op(op);
    assert(view.first_op_at(c, op));
    if c < k {
        assert(view.op_at(c, op));
    } else if k < c {
        assert(view.op_at(k, op));
    }
}

/// Index of the first declaration of a name.
pub fn find_register(registers: &Vec<RegisterDecl>, id: u8) -> (found: Option<usize>)
    ensures
        found matches Some(i) ==> i < registers.len() && registers[i as int].id == id,
        found is None ==> forall|i: int| 0 <= i < registers.len() ==> registers[i].id != id,
{
    let mut i: usize = 0;
    while i < registers.len()
        invariant
            0 <= i <= registers.len(),
            forall|j: int| 0 <= j < i ==> registers[j].id != id,
        decreases registers.len() - i,
    {
        if registers[i].id == id {
            return Some(i);
        }
        i = i + 1;
    }
    None
}

/// Index of the first instruction of the given operation.
pub fn first_instruction(listing: &ProgramListing, op: Operation) -> (found: Option<usize>)
    ensures
        found matches Some(k) ==> listing@.first_op_at(k as int, op),
        found is None ==> !listing@.has_op(op),
{
    let ghost view = listing@;
    let mut k: usize = 0;
    while k < listing.instructions.len()
        invariant
            0 <= k <= listing.instructions.len(),
            view == listing@,
            forall|j: int| 0 <= j < k ==> !#[trigger] view.op_at(j, op),
        decreases listing.instructions.len() - k,
    {
        let same = match listing.instructions[k].operation() {
            Some(found) => found == op,
            None => false,
        };
        if same {
            return Some(k);
        }
        k = k + 1;
    }
    proof {
        if view.has_op(op) {
            let j = choose|j: int| #[trigger] view.op_at(j, op);
            assert(!view.op_at(j, op));
        }
    }
    None
}

/// Looks an operand up: the index of its declaration, or the error owed for
/// a name that is not declared.
fn resolve(listing: &ProgramListing, k: usize, id: u8) -> (r: Result<usize, AssemblyError>)
    requires
        listing@.names_distinct(),
    ensures
        r is Ok <==> listing@.declares(id),
        r matches Ok(i) ==> i < listing.registers.len() && listing.registers[i as int].id == id
            && listing@.shape_of(id) == listing.registers[i as int].shape@,
        r matches Err(e) ==> e@ == (AssemblyErrorView::UnknownRegister {
            instruction: k,
            register: id,
        }),
{
    match find_register(&listing.registers, id) {
        Some(i) => {
            proof {
                assert(listing@.registers[i as int].id == id);
                lemma_shape_of(listing@, i as int);
            }
            Ok(i)
        },
        None => {
            proof {
                if listing@.declares(id) {
                    let i = choose|i: int|
                        0 <= i < listing@.registers.len() && #[trigger] listing@.registers[i].id
                            == id;
                    assert(listing.registers[i].id == id);
                }
            }
            Err(AssemblyError::UnknownRegister { instruction: k, register: id })
        },
    }
}

/// Checks instruction `k` against the rules, given the instructions that
/// name the input and the output register.
fn check_instruction(
    listing: &ProgramListing,
    k: usize,
    first_load: Option<usize>,
    first_store: Option<usize>,
) -> (r: Result<(), AssemblyError>)
    requires
        k < listing.instructions.len(),
        listing@.names_distinct(),
        listing@.registers_sound(),
        forall|j: int| 0 <= j < k ==> #[trigger] listing@.instruction_sound(j),
        first_load matches Some(f) ==> listing@.first_op_at(f as int, Operation::LoadInput),
        first_load is None ==> !listing@.has_op(Operation::LoadInput),
        first_store matches Some(f) ==> listing@.first_op_at(f as int, Operation::StoreOutput),
        first_store is None ==> !listing@.has_op(Operation::StoreOutput),
    ensures
        r is Ok <==> listing@.instruction_sound(k as int),
        r matches Err(e) ==> listing@.instruction_fault(k as int) == Some(e@),
{
    let ghost view = listing@;
    let ins = listing.instructions[k];
    let op = match ins.operation() {
        Some(op) => op,
        None => {
            return Err(AssemblyError::UnsupportedInstruction { instruction: k, opcode: ins.opcode });
        },
    };
    if matches!(op, Operation::Halt) && k + 1 != listing.instructions.len() {
        return Err(AssemblyError::UnsupportedInstruction { instruction: k, opcode: ins.opcode });
    }
    let mut target: usize = 0;
    let mut source: usize = 0;
    let mut second: usize = 0;
    if op.uses_target() {
        target = resolve(listing, k, ins.target)?;
    }
    if op.uses_source() {
        source = resolve(listing, k, ins.source)?;
    }
    if op.uses_second() {
        second = resolve(listing, k, ins.aux)?;
    }
    let fits = match op {
        Operation::LoadInput => {
            proof {
                assert(view.op_at(k as int, Operation::LoadInput));
            }
            match first_load {
                Some(f) => {
                    proof {
                        lemma_first_op(view, f as int, Operation::LoadInput);
                        assert(f <= k);
                        if f < k {
                            assert(view.instruction_sound(f as int));
                        }
                    }
                    match find_register(&listing.registers, listing.instructions[f].target) {
                        Some(home) => {
                            proof {
                                assert(view.registers[home as int].id == view.input_register());
                                lemma_shape_of(view, home as int);
                            }
                            same_shape(
                                &listing.registers[target].shape,
                                &listing.registers[home].shape,
                            )
                        },
                        None => {
                            proof {
                                let id = view.input_register();
                                assert(view.declares(id));
                                let i = choose|i: int|
                                    0 <= i < view.registers.len() && #[trigger] view.registers[i].id
                                        == id;
                                assert(listing.registers[i].id == id);
                            }
                            false
                        },
                    }
                },
                None => false,
            }
        },
        Operation::StoreOutput => {
            proof {
                assert(view.op_at(k as int, Operation::StoreOutput));
            }
            match first_store {
                Some(f) => {
                    proof {
                        lemma_first_op(view, f as int, Operation::StoreOutput);
                        assert(f <= k);
                        if f < k {
                            assert(view.instruction_sound(f as int));
                        }
                    }
                    match find_register(&listing.registers, listing.instructions[f].source) {
                        Some(home) => {
                            proof {
                                assert(view.registers[home as int].id == view.output_register());
                                lemma_shape_of(view, home as int);
                            }
                            same_shape(
                                &listing.registers[source].shape,
                                &listing.registers[home].shape,
                            )
                        },
                        None => {
                            proof {
                                let id = view.output_register();
                                assert(view.declares(id));
                                let i = choose|i: int|
                                    0 <= i < view.registers.len() && #[trigger] view.registers[i].id
                                        == id;
                                assert(listing.registers[i].id == id);
                            }
                            false
                        },
                    }
                },
                None => false,
            }
        },
        Operation::MaxReduce => {
            proof {
                assert(view.registers[target as int].is_lane_register());
            }
            match lane_count(&listing.registers[target].shape) {
                Some(count) => count == 1,
                None => false,
            }
        },
        _ => {
            if op.is_lanewise() {
                let unary = same_shape(
                    &listing.registers[source].shape,
                    &listing.registers[target].shape,
                );
                if op.uses_second() {
                    unary && same_shape(
                        &listing.registers[second].shape,
                        &listing.registers[target].shape,
                    )
                } else {
                    unary
                }
            } else {
                true
            }
        },
    };
    assert(fits == view.shapes_fit(k as int, op));
    if fits {
        Ok(())
    } else {
        Err(AssemblyError::ShapeMismatch { instruction: k })
    }
}

/// Checks a listing against the rules of the machine: `Ok` for a program,
/// and for every other listing the error that `reports` names.
pub fn check_listing(listing: &ProgramListing) -> (r: Result<(), AssemblyError>)
    ensures
        r is Ok <==> listing@.is_valid(),
        r matches Err(e) ==> listing@.reports(e@),
{
    let ghost view = listing@;
    let count = listing.registers.len();
    let mut i: usize = 0;
    while i < count
        invariant
            0 <= i <= count,
            count == listing.registers.len(),
            view == listing@,
            forall|a: int| 0 <= a < i ==> !#[trigger] view.repeats(a),
        decreases count - i,
    {
        let id = listing.registers[i].id;
        let mut j: usize = 0;
        while j < i
            invariant
                0 <= j <= i < count,
                count == listing.registers.len(),
                view == listing@,
                id == listing.registers[i as int].id,
                forall|a: int| 0 <= a < i ==> !#[trigger] view.repeats(a),
                forall|b: int| 0 <= b < j ==> listing.registers[b].id != id,
            decreases i - j,
        {
            if listing.registers[j].id == id {
                proof {
                    assert(view.registers[j as int].id == view.registers[i as int].id);
                    assert(view.repeats(i as int));
                }
                return Err(AssemblyError::DuplicateRegister { register: id });
            }
            j = j + 1;
        }
        proof {
            if view.repeats(i as int) {
                let b = choose|b: int|
                    0 <= b < i && #[trigger] view.registers[b].id == view.registers[i as int].id;
                assert(listing.registers[b].id == id);
            }
        }
        i = i + 1;
    }
    assert(view.names_distinct());
    i = 0;
    while i < count
        invariant
            0 <= i <= count,
            count == listing.registers.len(),
            view == listing@,
            view.names_distinct(),
            forall|a: int| 0 <= a < i ==> (#[trigger] view.registers[a]).is_lane_register(),
        decreases count - i,
    {
        let sound = listing.registers[i].id < LANE_REGISTERS && listing.registers[i].dtype
            == DTYPE_I32 && lane_count(&listing.registers[i].shape).is_some();
        proof {
            assert(view.registers[i as int] == listing.registers[i as int]@);
            assert(sound == view.registers[i as int].is_lane_register());
        }
        if !sound {
            return Err(AssemblyError::InvalidRegister { register: listing.registers[i].id });
        }
        i = i + 1;
    }
    assert(view.registers_sound());
    let first_load = first_instruction(listing, Operation::LoadInput);
    let first_store = first_instruction(listing, Operation::StoreOutput);
    let length = listing.instructions.len();
    let mut k: usize = 0;
    while k < length
        invariant
            0 <= k <= length,
            length == listing.instructions.len(),
            view == listing@,
            view.names_distinct(),
            view.registers_sound(),
            first_load matches Some(f) ==> view.first_op_at(f as int, Operation::LoadInput),
            first_load is None ==> !view.has_op(Operation::LoadInput),
            first_store matches Some(f) ==> view.first_op_at(f as int, Operation::StoreOutput),
            first_store is None ==> !view.has_op(Operation::StoreOutput),
            forall|j: int| 0 <= j < k ==> #[trigger] view.instruction_sound(j),
        decreases length - k,
    {
        match check_instruction(listing, k, first_load, first_store) {
            Ok(()) => {},
            Err(e) => {
                proof {
                    assert(!view.instruction_sound(k as int));
                    assert(view.instruction_fault(k as int) == Some(e@));
                }
                return Err(e);
            },
        }
        k = k + 1;
    }
    assert(view.instructions_sound());
    if first_load.is_none() || first_store.is_none() {
        return Err(AssemblyError::MissingIoDeclaration);
    }
    proof {
        lemma_first_op(view, first_load.unwrap() as int, Operation::LoadInput);
        lemma_first_op(view, first_store.unwrap() as int, Operation::StoreOutput);
    }
    if listing.instructions[length - 1].opcode != OP_HALT {
        return Err(AssemblyError::MissingHalt);
    }
    Ok(())
}

} // verus!
