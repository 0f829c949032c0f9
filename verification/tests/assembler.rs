use atomic_neural_transistors::machine::error::{AntError, AssemblyError, AssemblyErrorKind};
use atomic_neural_transistors::machine::listing::{
    lane_count, Instruction, Operation, RegisterDecl, DTYPE_I32, MAX_LANES, OP_HALT,
    OP_LOAD_INPUT, OP_RELU, OP_STORE_OUTPUT,
};
use atomic_neural_transistors::machine::program::{assemble, classify_fault, starts_with, AssembledProgram};
use atomic_neural_transistors::machine::engine::SourceFault;
use atomic_neural_transistors::machine::rules::{check_listing, ProgramListing};
use atomic_neural_transistors::machine::text::{find_disorder, join_brackets};
use atomic_neural_transistors::AtomicNeuralTransistor;

const RELU: &str = "
.registers
    H0: i32[4]
    H1: i32[4]

.program
    load_input H0
    relu H1, H0
    store_output H1
    halt
";

fn failure(source: &str) -> AssemblyError {
    match assemble(source) {
        Ok(_) => panic!("assembled"),
        Err(error) => error,
    }
}

#[test]
fn the_example_assembles_to_its_listing() {
    let program = assemble(RELU).unwrap();
    assert_eq!(program.input_dim(), 4);
    assert_eq!(program.output_dim(), 4);
    assert_eq!(program.input_shape(), vec![4]);
    assert_eq!(program.output_shape(), vec![4]);
    let listing = program.listing();
    assert_eq!(listing.registers.len(), 2);
    assert_eq!(listing.registers[0].id, 0);
    assert_eq!(listing.registers[1].id, 1);
    assert_eq!(listing.registers[0].dtype, DTYPE_I32);
    assert_eq!(listing.registers[1].shape, vec![4]);
    assert_eq!(listing.instructions.len(), 4);
    assert_eq!(listing.instructions[0].opcode, OP_LOAD_INPUT);
    assert_eq!(listing.instructions[0].target, 0);
    assert_eq!(listing.instructions[1].opcode, OP_RELU);
    assert_eq!(listing.instructions[1].target, 1);
    assert_eq!(listing.instructions[1].source, 0);
    assert_eq!(listing.instructions[2].opcode, OP_STORE_OUTPUT);
    assert_eq!(listing.instructions[2].source, 1);
    assert_eq!(listing.instructions[3].opcode, OP_HALT);
    assert_eq!(listing.instructions[1].operation(), Some(Operation::Relu));
}

#[test]
fn dimensions_are_the_product_of_the_sizes() {
    let source = "
.registers
    H0: i32[2, 3]
    H1: i32[5]
.program
    load_input H0
    store_output H1
    halt
";
    let ant = AtomicNeuralTransistor::from_source(source).unwrap();
    assert_eq!(ant.input_dim(), 6);
    assert_eq!(ant.output_dim(), 5);
}

#[test]
fn missing_halt_is_rejected() {
    let source = "
.registers
    H0: i32[4]
.program
    load_input H0
    store_output H0
";
    let error = failure(source);
    assert!(matches!(error, AssemblyError::MissingHalt));
    assert_eq!(error.kind(), AssemblyErrorKind::MissingHalt);
}

#[test]
fn undeclared_register_is_rejected() {
    let source = "
.registers
    H0: i32[4]
.program
    load_input H0
    relu H1, H0
    store_output H1
    halt
";
    let error = failure(source);
    assert!(matches!(error, AssemblyError::UnknownRegister { instruction: 1, register: 1 }));
    assert_eq!(error.kind(), AssemblyErrorKind::UnknownRegister);
}

#[test]
fn duplicate_register_is_rejected() {
    let source = "
.registers
    H0: i32[4]
    H1: i32[4]
    H0: i32[8]
.program
    load_input H0
    relu H1, H0
    store_output H1
    halt
";
    let error = failure(source);
    assert!(matches!(error, AssemblyError::DuplicateRegister { register: 0 }));
    assert_eq!(error.kind(), AssemblyErrorKind::DuplicateRegister);
}

#[test]
fn duplicates_are_reported_before_other_faults_of_the_listing() {
    let source = "
.registers
    C0: ternary[4]
    H1: i32[4]
    H1: i32[4]
.program
    relu H1, H7
";
    assert_eq!(failure(source).kind(), AssemblyErrorKind::DuplicateRegister);
}

#[test]
fn shapes_of_a_lanewise_operation_must_agree() {
    let source = "
.registers
    H0: i32[4]
    H1: i32[5]
.program
    load_input H0
    relu H1, H0
    store_output H1
    halt
";
    let error = failure(source);
    assert!(matches!(error, AssemblyError::ShapeMismatch { instruction: 1 }));
    assert_eq!(error.kind(), AssemblyErrorKind::ShapeMismatch);
}

#[test]
fn shapes_differ_even_with_equal_lane_counts() {
    let source = "
.registers
    H0: i32[2, 3]
    H1: i32[3, 2]
    H2: i32[2, 3]
.program
    load_input H0
    add H2, H0, H1
    store_output H2
    halt
";
    assert!(matches!(failure(source), AssemblyError::ShapeMismatch { instruction: 1 }));
}

#[test]
fn unknown_mnemonic_is_an_unsupported_instruction() {
    let source = "
.registers
    H0: i32[4]
.program
    load_input H0
    frobnicate H0
    store_output H0
    halt
";
    let error = failure(source);
    match &error {
        AssemblyError::UnknownMnemonic { line, message } => {
            assert_eq!(*line, 6);
            assert_eq!(message, "Unknown mnemonic: frobnicate");
        }
        other => panic!("unexpected {:?}", other),
    }
    assert_eq!(error.kind(), AssemblyErrorKind::UnsupportedInstruction);
}

#[test]
fn an_operation_outside_the_machine_is_unsupported() {
    let source = "
.registers
    H0: i32[4]
.program
    load_input H0
    loop 3
    store_output H0
    halt
";
    let error = failure(source);
    assert!(matches!(
        error,
        AssemblyError::UnsupportedInstruction { instruction: 1, opcode: 0x6000 }
    ));
    assert_eq!(error.kind(), AssemblyErrorKind::UnsupportedInstruction);
}

#[test]
fn a_halt_before_the_end_is_unsupported() {
    let source = "
.registers
    H0: i32[4]
.program
    load_input H0
    halt
    store_output H0
    halt
";
    assert!(matches!(
        failure(source),
        AssemblyError::UnsupportedInstruction { instruction: 1, opcode: OP_HALT }
    ));
}

#[test]
fn missing_input_or_output_is_rejected() {
    let no_output = "
.registers
    H0: i32[4]
.program
    load_input H0
    halt
";
    let no_input = "
.registers
    H0: i32[4]
.program
    store_output H0
    halt
";
    assert!(matches!(failure(no_output), AssemblyError::MissingIoDeclaration));
    assert!(matches!(failure(no_input), AssemblyError::MissingIoDeclaration));
    assert_eq!(failure("").kind(), AssemblyErrorKind::MissingIoDeclaration);
}

#[test]
fn malformed_text_is_a_parse_error() {
    let source = "
.registers
    H0 i32[4]
.program
    halt
";
    let error = failure(source);
    match &error {
        AssemblyError::Parse { line, message } => {
            assert_eq!(*line, 3);
            assert_eq!(message, "Missing ':' in register definition");
        }
        other => panic!("unexpected {:?}", other),
    }
    assert_eq!(error.kind(), AssemblyErrorKind::Parse);
}

#[test]
fn a_register_of_another_bank_is_invalid() {
    let source = "
.registers
    H0: i32[4]
    C0: ternary[4, 4]
.program
    load_input H0
    store_output H0
    halt
";
    let error = failure(source);
    assert!(matches!(error, AssemblyError::InvalidRegister { register: 0x10 }));
    assert_eq!(error.kind(), AssemblyErrorKind::Parse);
}

#[test]
fn a_register_without_lanes_or_with_too_many_is_invalid() {
    let zero = "
.registers
    H0: i32[0]
.program
    load_input H0
    store_output H0
    halt
";
    let huge = "
.registers
    H0: i32[65536, 65536]
.program
    load_input H0
    store_output H0
    halt
";
    assert!(matches!(failure(zero), AssemblyError::InvalidRegister { register: 0 }));
    assert!(matches!(failure(huge), AssemblyError::InvalidRegister { register: 0 }));
}

#[test]
fn brackets_out_of_order_are_refused_with_their_line() {
    let source = ".registers\n    H0: i32]4[\n.program\n    halt\n";
    match failure(source) {
        AssemblyError::Parse { line, message } => {
            assert_eq!(line, 2);
            assert_eq!(message, "']' before '['");
        }
        other => panic!("unexpected {:?}", other),
    }
}

#[test]
fn brackets_in_comments_do_not_count() {
    let source = "
.registers
    H0: i32[4] ; lanes [0] to [3]
.program
    load_input H0   ; ] [
    store_output H0
    halt
";
    assert!(assemble(source).is_ok());
    assert_eq!(find_disorder(source.as_bytes()), None);
    assert_eq!(find_disorder(b"a]\n[b"), None);
    assert_eq!(find_disorder(b"[a]\n\nx ] y [ z"), Some(3));
    assert_eq!(find_disorder(b"] ; ["), None);
}

#[test]
fn from_source_wraps_the_assembly_error() {
    match AtomicNeuralTransistor::from_source(".program\n    load_input H0\n") {
        Err(AntError::Assembly(error)) => {
            assert_eq!(error.kind(), AssemblyErrorKind::UnknownRegister)
        }
        other => panic!("unexpected {:?}", other.map(|_| ())),
    }
}

#[test]
fn faults_are_classified_by_their_message() {
    let fault = SourceFault { line: 3, message: String::from("Unknown mnemonic: x") };
    assert!(matches!(classify_fault(fault), AssemblyError::UnknownMnemonic { line: 3, .. }));
    let fault = SourceFault { line: 4, message: String::from("Unknown directive: .x") };
    assert!(matches!(classify_fault(fault), AssemblyError::Parse { line: 4, .. }));
    assert!(starts_with("abc", "ab"));
    assert!(starts_with("abc", ""));
    assert!(!starts_with("ab", "abc"));
    assert!(!starts_with("abc", "ac"));
}

fn instruction(opcode: u16, target: u8, source: u8, aux: u8) -> Instruction {
    Instruction { opcode, target, source, aux, modifier: [0, 0, 0] }
}

#[test]
fn a_listing_written_by_hand_is_checked_like_an_assembled_one() {
    let listing = ProgramListing {
        registers: vec![
            RegisterDecl { id: 0, dtype: DTYPE_I32, shape: vec![3] },
            RegisterDecl { id: 1, dtype: DTYPE_I32, shape: vec![3] },
        ],
        instructions: vec![
            instruction(OP_LOAD_INPUT, 0, 0xFF, 0),
            instruction(OP_RELU, 1, 0, 0),
            instruction(OP_STORE_OUTPUT, 0xFF, 1, 0),
            instruction(OP_HALT, 0xFF, 0xFF, 0),
        ],
    };
    assert!(check_listing(&listing).is_ok());
    let program = AssembledProgram::new(listing).unwrap();
    let mut ant = AtomicNeuralTransistor::from_program(&program).unwrap();
    assert_eq!(ant.forward_i32(&[-1, 0, 7]).unwrap(), vec![0, 0, 7]);
}

#[test]
fn every_load_and_store_has_the_shape_of_the_first() {
    let listing = ProgramListing {
        registers: vec![
            RegisterDecl { id: 0, dtype: DTYPE_I32, shape: vec![3] },
            RegisterDecl { id: 1, dtype: DTYPE_I32, shape: vec![4] },
        ],
        instructions: vec![
            instruction(OP_LOAD_INPUT, 0, 0xFF, 0),
            instruction(OP_LOAD_INPUT, 1, 0xFF, 0),
            instruction(OP_STORE_OUTPUT, 0xFF, 0, 0),
            instruction(OP_HALT, 0xFF, 0xFF, 0),
        ],
    };
    assert!(matches!(
        check_listing(&listing),
        Err(AssemblyError::ShapeMismatch { instruction: 1 })
    ));
}

#[test]
fn lane_count_is_the_product_within_the_limit() {
    assert_eq!(lane_count(&vec![]), Some(1));
    assert_eq!(lane_count(&vec![4]), Some(4));
    assert_eq!(lane_count(&vec![2, 3, 5]), Some(30));
    assert_eq!(lane_count(&vec![2, 0, 5]), None);
    assert_eq!(lane_count(&vec![MAX_LANES]), Some(MAX_LANES));
    assert_eq!(lane_count(&vec![MAX_LANES, 2]), None);
    assert_eq!(lane_count(&vec![usize::MAX, usize::MAX]), None);
}

#[test]
fn sizes_may_stand_in_one_pair_of_brackets_each() {
    let source = "
.registers
    H0: i32[2][3]
    H1: i32[2, 3]
    H2: i32[4][1][2]
.program
    load_input H0
    relu H1, H0
    store_output H2
    halt
";
    let program = assemble(source).unwrap();
    assert_eq!(program.input_shape(), vec![2, 3]);
    assert_eq!(program.input_dim(), 6);
    assert_eq!(program.output_shape(), vec![4, 1, 2]);
    assert_eq!(program.output_dim(), 8);
    assert_eq!(program.listing().registers[1].shape, vec![2, 3]);
}

#[test]
fn brackets_are_joined_outside_comments_only() {
    assert_eq!(join_brackets("i32[2][3]"), "i32[2, 3]");
    assert_eq!(join_brackets("a[1][2][3]b"), "a[1, 2, 3]b");
    assert_eq!(join_brackets("x ; [1][2]\n[1][2]"), "x ; [1][2]\n[1, 2]");
    assert_eq!(join_brackets("]]["), "], ");
    assert_eq!(join_brackets("]"), "]");
    assert_eq!(join_brackets("] ["), "] [");
    assert_eq!(join_brackets(""), "");
    assert_eq!(join_brackets("é][ü"), "é, ü");
}

#[test]
fn odd_texts_are_refused_without_a_panic() {
    let texts = [
        ".registers\n:",
        ".registers\nH0:",
        ".registers\nH0: i32[",
        ".registers\nH0: i32]",
        ".registers\nH0: ][",
        ".registers\nH[0: ]4[",
        ".registers\nH0: i32[4] key=\"",
        ".registers\nH0: i32[4] key=\"a",
        ".registers\nH0: i32[4] key=\"a]b[c\"",
        ".registers\nß0: i32[4]",
        ".registers\nHé: i32[4]",
        ".registers\nh0x: i32[4]",
        ".registers\nH0X1: i32[4]",
        ".registers\nH99: i32[4]",
        ".registers\nH0: i32[99999999999999999999999]",
        ".registers\nH0: i32[-1]",
        ".registers\nH0: i32[, ]",
        ".registers\r\nH0: i32[4]\r\n.program\r\nload_input H0\r\nstore_output H0\r\nhalt\r\n",
        ".program\nshift H0, H0, 0x",
        ".program\nshift H0, H0, 99999999999",
        ".program\nsigmoid H0, H0, gain=nan",
        ".program\nsigmoid H0, H0, gain=",
        ".program\nadd_babble H0, layer=",
        ".program\ndequantize H0",
        ".program\nloop",
        ".program\nlabel:\n:",
        ".program\n\u{2028}halt",
        ".bogus",
        "halt",
        ";",
        "\n\n\n",
        "]\n[",
        "[[[[]]]]",
    ];
    for text in texts {
        let _ = assemble(text);
    }
}

#[test]
fn random_texts_are_assembled_or_refused_without_a_panic() {
    let alphabet: Vec<char> =
        ".registersprogamHCPS0123456789:[], ;=\"\n\txloadinputhé_".chars().collect();
    let mut state: u64 = 0x2545F4914F6CDD1D;
    for round in 0..3000 {
        let mut text = String::from(if round % 2 == 0 { ".registers\n" } else { ".program\n" });
        let length = 1 + (round % 40);
        for _ in 0..length {
            state ^= state << 13;
            state ^= state >> 7;
            state ^= state << 17;
            text.push(alphabet[(state % alphabet.len() as u64) as usize]);
        }
        let _ = assemble(&text);
    }
}
