//! Errors of assembly and of a forward pass.

use vstd::prelude::*;

verus! {

/// The kinds of assembly error.
#[derive(Clone, Copy, Debug, PartialEq, Eq, Structural)]
pub enum AssemblyErrorKind {
    /// The text or a declaration is malformed.
    Parse,
    /// A register is declared twice.
    DuplicateRegister,
    /// An instruction names a register that is not declared.
    UnknownRegister,
    /// The registers of an instruction do not have the shapes it asks for.
    ShapeMismatch,
    /// An instruction is not one of the machine.
    UnsupportedInstruction,
    /// The program never loads its input or never stores its output.
    MissingIoDeclaration,
    /// The program does not end with `halt`.
    MissingHalt,
}

/// Why a source text or a listing is not a program of the machine.
#[derive(Clone, Debug)]
pub enum AssemblyError {
    /// The text is not a listing. Kind `Parse`.
    Parse {
        /// Line of the text, counted from 1.
        line: usize,
        /// What is wrong with the line.
        message: String,
    },
    /// The declaration is not one of a lane register that the machine can
    /// hold. Kind `Parse`.
    InvalidRegister {
        /// Name of the register.
        register: u8,
    },
    /// The register is declared a second time.
    DuplicateRegister {
        /// Name of the register.
        register: u8,
    },
    /// The instruction names a register that is not declared.
    UnknownRegister {
        /// Index of the instruction in the listing, counted from 0.
        instruction: usize,
        /// Name of the register.
        register: u8,
    },
    /// The registers of the instruction do not have the shapes it asks for.
    ShapeMismatch {
        /// Index of the instruction in the listing, counted from 0.
        instruction: usize,
    },
    /// The text holds a mnemonic that the assembler does not know. Kind
    /// `UnsupportedInstruction`.
    UnknownMnemonic {
        /// Line of the text, counted from 1.
        line: usize,
        /// The assembler's message, which holds the mnemonic.
        message: String,
    },
    /// The instruction is not one of the machine, or is a `halt` that does
    /// not stand last.
    UnsupportedInstruction {
        /// Index of the instruction in the listing, counted from 0.
        instruction: usize,
        /// Operation code of the instruction.
        opcode: u16,
    },
    /// The program never loads its input or never stores its output.
    MissingIoDeclaration,
    /// The program does not end with `halt`.
    MissingHalt,
}

impl AssemblyError {
    /// The kind of the error.
    pub open spec fn spec_kind(&self) -> AssemblyErrorKind {
        match self {
            AssemblyError::Parse { .. } => AssemblyErrorKind::Parse,
            AssemblyError::InvalidRegister { .. } => AssemblyErrorKind::Parse,
            AssemblyError::DuplicateRegister { .. } => AssemblyErrorKind::DuplicateRegister,
            AssemblyError::UnknownRegister { .. } => AssemblyErrorKind::UnknownRegister,
            AssemblyError::ShapeMismatch { .. } => AssemblyErrorKind::ShapeMismatch,
            AssemblyError::UnknownMnemonic { .. } => AssemblyErrorKind::UnsupportedInstruction,
            AssemblyError::UnsupportedInstruction { .. } => AssemblyErrorKind::UnsupportedInstruction,
            AssemblyError::MissingIoDeclaration => AssemblyErrorKind::MissingIoDeclaration,
            AssemblyError::MissingHalt => AssemblyErrorKind::MissingHalt,
        }
    }

    /// The kind of the error.
    pub fn kind(&self) -> (kind: AssemblyErrorKind)
        ensures
            kind == self.spec_kind(),
    {
        match self {
            AssemblyError::Parse { .. } => AssemblyErrorKind::Parse,
            AssemblyError::InvalidRegister { .. } => AssemblyErrorKind::Parse,
            AssemblyError::DuplicateRegister { .. } => AssemblyErrorKind::DuplicateRegister,
            AssemblyError::UnknownRegister { .. } => AssemblyErrorKind::UnknownRegister,
            AssemblyError::ShapeMismatch { .. } => AssemblyErrorKind::ShapeMismatch,
            AssemblyError::UnknownMnemonic { .. } => AssemblyErrorKind::UnsupportedInstruction,
            AssemblyError::UnsupportedInstruction { .. } => AssemblyErrorKind::UnsupportedInstruction,
            AssemblyError::MissingIoDeclaration => AssemblyErrorKind::MissingIoDeclaration,
            AssemblyError::MissingHalt => AssemblyErrorKind::MissingHalt,
        }
    }
}

/// An assembly error as a mathematical value: messages as sequences of
/// characters.
pub enum AssemblyErrorView {
    /// See `AssemblyError::Parse`.
    Parse { line: usize, message: Seq<char> },
    /// See `AssemblyError::InvalidRegister`.
    InvalidRegister { register: u8 },
    /// See `AssemblyError::DuplicateRegister`.
    DuplicateRegister { register: u8 },
    /// See `AssemblyError::UnknownRegister`.
    UnknownRegister { instruction: usize, register: u8 },
    /// See `AssemblyError::ShapeMismatch`.
    ShapeMismatch { instruction: usize },
    /// See `AssemblyError::UnknownMnemonic`.
    UnknownMnemonic { line: usize, message: Seq<char> },
    /// See `AssemblyError::UnsupportedInstruction`.
    UnsupportedInstruction { instruction: usize, opcode: u16 },
    /// See `AssemblyError::MissingIoDeclaration`.
    MissingIoDeclaration,
    /// See `AssemblyError::MissingHalt`.
    MissingHalt,
}

impl View for AssemblyError {
    type V = AssemblyErrorView;

    open spec fn view(&self) -> AssemblyErrorView {
        match self {
            AssemblyError::Parse { line, message } => AssemblyErrorView::Parse {
                line: *line,
                message: message@,
            },
            AssemblyError::InvalidRegister { register } => AssemblyErrorView::InvalidRegister {
                register: *register,
            },
            AssemblyError::DuplicateRegister { register } => AssemblyErrorView::DuplicateRegister {
                register: *register,
            },
            AssemblyError::UnknownRegister { instruction, register } => {
                AssemblyErrorView::UnknownRegister {
                    instruction: *instruction,
                    register: *register,
                }
            },
            AssemblyError::ShapeMismatch { instruction } => AssemblyErrorView::ShapeMismatch {
                instruction: *instruction,
            },
            AssemblyError::UnknownMnemonic { line, message } => AssemblyErrorView::UnknownMnemonic {
                line: *line,
                message: message@,
            },
            AssemblyError::UnsupportedInstruction { instruction, opcode } => {
                AssemblyErrorView::UnsupportedInstruction {
                    instruction: *instruction,
                    opcode: *opcode,
                }
            },
            AssemblyError::MissingIoDeclaration => AssemblyErrorView::MissingIoDeclaration,
            AssemblyError::MissingHalt => AssemblyErrorView::MissingHalt,
        }
    }
}

/// Why a unit could not be made or a forward pass gave no output.
#[derive(Clone, Debug)]
pub enum AntError {
    /// A tensor operation failed.
    Tensor(String),
    /// A model could not be loaded.
    ModelLoad(String),
    /// A configuration is invalid.
    Config(String),
    /// The input does not have the length that the program declares.
    ShapeMismatch {
        /// Length that the program declares.
        expected: usize,
        /// Length of the input.
        got: usize,
    },
    /// A file could not be read.
    Io(String),
    /// The source text is not a program of the machine.
    Assembly(AssemblyError),
    /// The pass broke a rule that assembly had checked.
    Execution(String),
}

/// A unit's error as a mathematical value.
pub enum AntErrorView {
    /// See `AntError::Tensor`.
    Tensor(Seq<char>),
    /// See `AntError::ModelLoad`.
    ModelLoad(Seq<char>),
    /// See `AntError::Config`.
    Config(Seq<char>),
    /// See `AntError::ShapeMismatch`.
    ShapeMismatch { expected: usize, got: usize },
    /// See `AntError::Io`.
    Io(Seq<char>),
    /// See `AntError::Assembly`.
    Assembly(AssemblyErrorView),
    /// See `AntError::Execution`.
    Execution(Seq<char>),
}

impl View for AntError {
    type V = AntErrorView;

    open spec fn view(&self) -> AntErrorView {
        match self {
            AntError::Tensor(message) => AntErrorView::Tensor(message@),
            AntError::ModelLoad(message) => AntErrorView::ModelLoad(message@),
            AntError::Config(message) => AntErrorView::Config(message@),
            AntError::ShapeMismatch { expected, got } => AntErrorView::ShapeMismatch {
                expected: *expected,
                got: *got,
            },
            AntError::Io(message) => AntErrorView::Io(message@),
            AntError::Assembly(error) => AntErrorView::Assembly(error@),
            AntError::Execution(message) => AntErrorView::Execution(message@),
        }
    }
}

} // verus!
