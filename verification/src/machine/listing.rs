//! The listing of a register program: what the assembler makes of a source
//! text, as plain values.
//!
//! A register is named by one byte, bank in the high four bits and index in
//! the low four. The machine of this library runs on the first bank only, the
//! lane registers of 32-bit integers. An instruction is an operation code and
//! up to three register operands.

use vstd::prelude::*;

verus! {

/// Number of lane registers of the machine. Their names are the bytes below
/// this number.
pub const LANE_REGISTERS: u8 = 16;

/// Type code of a register of 32-bit integer lanes.
pub const DTYPE_I32: u8 = 1;

/// Most lanes that a register can have. At four bytes a lane the register
/// then fits the address space of a 32-bit machine.
pub const MAX_LANES: usize = 0x0FFF_FFFF;

/// Operation code of `nop`.
pub const OP_NOP: u16 = 0x0000;

/// Operation code of `halt`.
pub const OP_HALT: u16 = 0x0001;

/// Operation code of `copy_reg`.
pub const OP_COPY: u16 = 0x1004;

/// Operation code of `zero_reg`.
pub const OP_ZERO: u16 = 0x1006;

/// Operation code of `load_input`.
pub const OP_LOAD_INPUT: u16 = 0x1007;

/// Operation code of `store_output`.
pub const OP_STORE_OUTPUT: u16 = 0x1008;

/// Operation code of `add`.
pub const OP_ADD: u16 = 0x3001;

/// Operation code of `mul`.
pub const OP_MUL: u16 = 0x3002;

/// Operation code of `relu`.
pub const OP_RELU: u16 = 0x3003;

/// Operation code of `sigmoid`.
pub const OP_SIGMOID: u16 = 0x3004;

/// Operation code of `sub`.
pub const OP_SUB: u16 = 0x300E;

/// Operation code of `cmp_gt`.
pub const OP_CMP_GT: u16 = 0x300F;

/// Operation code of `max_reduce`.
pub const OP_MAX_REDUCE: u16 = 0x3010;

/// The operations of the machine.
#[derive(Clone, Copy, Debug, PartialEq, Eq, Structural)]
pub enum Operation {
    /// Does nothing.
    Nop,
    /// Ends the pass. It stands last in a program and nowhere else.
    Halt,
    /// Copies the caller's input into the target register.
    LoadInput,
    /// Makes the source register the output of the pass.
    StoreOutput,
    /// Sets every lane of the target to zero.
    Zero,
    /// Copies the source register into the target.
    Copy,
    /// Lane by lane, the larger of zero and the source lane.
    Relu,
    /// Lane by lane, a piecewise linear sigmoid of the source lane.
    Sigmoid,
    /// Lane by lane, the saturating sum of source and second source.
    Add,
    /// Lane by lane, the saturating difference of source and second source.
    Sub,
    /// Lane by lane, the scaled product of source and second source.
    Mul,
    /// Lane by lane, 255 where the source exceeds the second source, else 0.
    CompareGreater,
    /// The largest lane of the source, into a target of one lane.
    MaxReduce,
}

impl Operation {
    /// Whether the instruction's target byte names a register.
    pub open spec fn spec_uses_target(self) -> bool {
        self != Operation::Nop && self != Operation::Halt && self != Operation::StoreOutput
    }

    /// Whether the instruction's source byte names a register.
    pub open spec fn spec_uses_source(self) -> bool {
        self != Operation::Nop && self != Operation::Halt && self != Operation::LoadInput && self
            != Operation::Zero
    }

    /// Whether the instruction's third byte names a register, the second
    /// source of a binary operation.
    pub open spec fn spec_uses_second(self) -> bool {
        self == Operation::Add || self == Operation::Sub || self == Operation::Mul || self
            == Operation::CompareGreater
    }

    /// Whether target and sources must have one shape: the lane-by-lane
    /// operations and the copy.
    pub open spec fn spec_is_lanewise(self) -> bool {
        self.spec_uses_target() && self.spec_uses_source() && self != Operation::MaxReduce
    }

    /// Whether the instruction's target byte names a register.
    pub fn uses_target(self) -> (yes: bool)
        ensures
            yes == self.spec_uses_target(),
    {
        !matches!(self, Operation::Nop | Operation::Halt | Operation::StoreOutput)
    }

    /// Whether the instruction's source byte names a register.
    pub fn uses_source(self) -> (yes: bool)
        ensures
            yes == self.spec_uses_source(),
    {
        !matches!(self, Operation::Nop | Operation::Halt | Operation::LoadInput | Operation::Zero)
    }

    /// Whether the instruction's third byte names a register.
    pub fn uses_second(self) -> (yes: bool)
        ensures
            yes == self.spec_uses_second(),
    {
        matches!(
            self,
            Operation::Add | Operation::Sub | Operation::Mul | Operation::CompareGreater
        )
    }

    /// Whether target and sources must have one shape.
    pub fn is_lanewise(self) -> (yes: bool)
        ensures
            yes == self.spec_is_lanewise(),
    {
        self.uses_target() && self.uses_source() && !matches!(self, Operation::MaxReduce)
    }
}

/// One instruction of a listing.
#[derive(Clone, Copy, Debug)]
pub struct Instruction {
    /// Operation code.
    pub opcode: u16,
    /// Name of the target register, where the operation has one.
    pub target: u8,
    /// Name of the source register, where the operation has one.
    pub source: u8,
    /// Name of the second source register, or an immediate value.
    pub aux: u8,
    /// Three bytes of parameters of the operation.
    pub modifier: [u8; 3],
}

impl Instruction {
    /// The operation that the code stands for, if the machine has it.
    pub open spec fn spec_operation(self) -> Option<Operation> {
        if self.opcode == OP_NOP {
            Some(Operation::Nop)
        } else if self.opcode == OP_HALT {
            Some(Operation::Halt)
        } else if self.opcode == OP_LOAD_INPUT {
            Some(Operation::LoadInput)
        } else if self.opcode == OP_STORE_OUTPUT {
            Some(Operation::StoreOutput)
        } else if self.opcode == OP_ZERO {
            Some(Operation::Zero)
        } else if self.opcode == OP_COPY {
            Some(Operation::Copy)
        } else if self.opcode == OP_RELU {
            Some(Operation::Relu)
        } else if self.opcode == OP_SIGMOID {
            Some(Operation::Sigmoid)
        } else if self.opcode == OP_ADD {
            Some(Operation::Add)
        } else if self.opcode == OP_SUB {
            Some(Operation::Sub)
        } else if self.opcode == OP_MUL {
            Some(Operation::Mul)
        } else if self.opcode == OP_CMP_GT {
            Some(Operation::CompareGreater)
        } else if self.opcode == OP_MAX_REDUCE {
            Some(Operation::MaxReduce)
        } else {
            None
        }
    }

    /// The operation that the code stands for, if the machine has it.
    pub fn operation(&self) -> (op: Option<Operation>)
        ensures
            op == self.spec_operation(),
    {
        if self.opcode == OP_NOP {
            Some(Operation::Nop)
        } else if self.opcode == OP_HALT {
            Some(Operation::Halt)
        } else if self.opcode == OP_LOAD_INPUT {
            Some(Operation::LoadInput)
        } else if self.opcode == OP_STORE_OUTPUT {
            Some(Operation::StoreOutput)
        } else if self.opcode == OP_ZERO {
            Some(Operation::Zero)
        } else if self.opcode == OP_COPY {
            Some(Operation::Copy)
        } else if self.opcode == OP_RELU {
            Some(Operation::Relu)
        } else if self.opcode == OP_SIGMOID {
            Some(Operation::Sigmoid)
        } else if self.opcode == OP_ADD {
            Some(Operation::Add)
        } else if self.opcode == OP_SUB {
            Some(Operation::Sub)
        } else if self.opcode == OP_MUL {
            Some(Operation::Mul)
        } else if self.opcode == OP_CMP_GT {
            Some(Operation::CompareGreater)
        } else if self.opcode == OP_MAX_REDUCE {
            Some(Operation::MaxReduce)
        } else {
            None
        }
    }

    /// Whether the instruction is the given operation.
    pub open spec fn is_op(self, op: Operation) -> bool {
        self.spec_operation() == Some(op)
    }
}

/// One register declaration of a listing.
#[derive(Debug)]
pub struct RegisterDecl {
    /// Name of the register: bank and index.
    pub id: u8,
    /// Type code of the elements.
    pub dtype: u8,
    /// Dimension sizes, outermost first.
    pub shape: Vec<usize>,
}

/// A register declaration as a mathematical value.
pub struct RegisterView {
    /// Name of the register.
    pub id: u8,
    /// Type code of the elements.
    pub dtype: u8,
    /// Dimension sizes, outermost first.
    pub shape: Seq<usize>,
}

impl View for RegisterDecl {
    type V = RegisterView;

    open spec fn view(&self) -> RegisterView {
        RegisterView { id: self.id, dtype: self.dtype, shape: self.shape@ }
    }
}

impl Clone for RegisterDecl {
    /// A copy with the same name, type code and shape.
    fn clone(&self) -> (copy: Self)
        ensures
            copy@ == self@,
    {
        RegisterDecl { id: self.id, dtype: self.dtype, shape: copy_shape(&self.shape) }
    }
}

/// A copy of a shape.
pub fn copy_shape(shape: &Vec<usize>) -> (copy: Vec<usize>)
    ensures
        copy@ == shape@,
{
    let mut copy: Vec<usize> = Vec::new();
    let mut d: usize = 0;
    while d < shape.len()
        invariant
            0 <= d <= shape.len(),
            copy@ == shape@.take(d as int),
        decreases shape.len() - d,
    {
        copy.push(shape[d]);
        d = d + 1;
        assert(copy@ =~= shape@.take(d as int));
    }
    assert(shape@.take(d as int) =~= shape@);
    copy
}

/// Number of lanes of a register of the given shape: the product of its
/// dimension sizes, 1 for no dimension.
pub open spec fn lanes(shape: Seq<usize>) -> nat
    decreases shape.len(),
{
    if shape.len() == 0 {
        1
    } else {
        lanes(shape.drop_last()) * (shape.last() as nat)
    }
}

/// Whether every dimension size is positive.
pub open spec fn all_positive(shape: Seq<usize>) -> bool {
    forall|d: int| 0 <= d < shape.len() ==> shape[d] > 0
}

impl RegisterView {
    /// Whether the declaration is one of a lane register that the machine
    /// can hold: first bank, 32-bit integers, positive dimension sizes, and
    /// no more than `MAX_LANES` lanes.
    pub open spec fn is_lane_register(self) -> bool {
        &&& self.id < LANE_REGISTERS
        &&& self.dtype == DTYPE_I32
        &&& all_positive(self.shape)
        &&& lanes(self.shape) <= MAX_LANES
    }
}

/// With positive sizes, the lanes of a shape are at least those of each of
/// its prefixes, and at least one.
pub proof fn lemma_lanes_grow(shape: Seq<usize>, n: int)
    requires
        all_positive(shape),
        0 <= n <= shape.len(),
    ensures
        1 <= lanes(shape.take(n)) <= lanes(shape),
    decreases shape.len() - n,
{
    if n == shape.len() {
        assert(shape.take(n) =~= shape);
        lemma_lanes_positive(shape);
    } else {
        lemma_lanes_grow(shape, n + 1);
        let longer = shape.take(n + 1);
        assert(longer.drop_last() =~= shape.take(n));
        assert(longer.last() == shape[n]);
        let a = lanes(shape.take(n));
        let b = shape[n] as nat;
        assert(lanes(longer) == a * b);
        assert(a <= a * b) by (nonlinear_arith)
            requires
                b >= 1,
        ;
        lemma_lanes_positive(shape.take(n));
    }
}

/// With positive sizes a shape has at least one lane.
pub proof fn lemma_lanes_positive(shape: Seq<usize>)
    requires
        all_positive(shape),
    ensures
        lanes(shape) >= 1,
    decreases shape.len(),
{
    if shape.len() > 0 {
        lemma_lanes_positive(shape.drop_last());
        let a = lanes(shape.drop_last());
        let b = shape.last() as nat;
        assert(a * b >= 1) by (nonlinear_arith)
            requires
                a >= 1,
                b >= 1,
        ;
    }
}

/// Number of lanes of a shape, if every size is positive and the lanes are
/// no more than `MAX_LANES`.
pub fn lane_count(shape: &Vec<usize>) -> (count: Option<usize>)
    ensures
        count is Some <==> all_positive(shape@) && lanes(shape@) <= MAX_LANES,
        count matches Some(n) ==> n == lanes(shape@),
{
    let mut product: usize = 1;
    let mut d: usize = 0;
    while d < shape.len()
        invariant
            0 <= d <= shape.len(),
            all_positive(shape@.take(d as int)),
            product == lanes(shape@.take(d as int)),
            1 <= product <= MAX_LANES,
        decreases shape.len() - d,
    {
        let size: usize = shape[d];
        proof {
            let longer = shape@.take(d + 1);
            assert(longer.drop_last() =~= shape@.take(d as int));
            assert(longer.last() == size);
        }
        if size == 0 {
            return None;
        }
        if size > MAX_LANES / product {
            proof {
                let longer = shape@.take(d + 1);
                assert(product * size > MAX_LANES) by (nonlinear_arith)
                    requires
                        size > MAX_LANES / product,
                        product >= 1,
                ;
                if all_positive(shape@) {
                    lemma_lanes_grow(shape@, d + 1);
                }
            }
            return None;
        }
        assert(product * size <= MAX_LANES) by (nonlinear_arith)
            requires
                size <= MAX_LANES / product,
                product >= 1,
        ;
        assert(product * size >= 1) by (nonlinear_arith)
            requires
                size >= 1,
                product >= 1,
        ;
        product = product * size;
        d = d + 1;
        proof {
            let longer = shape@.take(d as int);
            assert forall|e: int| 0 <= e < longer.len() implies longer[e] > 0 by {
                if e < d - 1 {
                    assert(shape@.take(d - 1)[e] > 0);
                }
            }
        }
    }
    assert(shape@.take(d as int) =~= shape@);
    Some(product)
}

/// Whether two shapes are the same sequence of sizes.
pub fn same_shape(a: &Vec<usize>, b: &Vec<usize>) -> (same: bool)
    ensures
        same == (a@ == b@),
{
    if a.len() != b.len() {
        return false;
    }
    let mut d: usize = 0;
    while d < a.len()
        invariant
            0 <= d <= a.len(),
            a.len() == b.len(),
            forall|e: int| 0 <= e < d ==> a[e] == b[e],
        decreases a.len() - d,
    {
        if a[d] != b[d] {
            return false;
        }
        d = d + 1;
    }
    assert(a@ =~= b@);
    true
}

} // verus!
