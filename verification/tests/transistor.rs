use atomic_neural_transistors::machine::atomic_neural_transistor::{decode_all, encode_all, settle};
use atomic_neural_transistors::{AntError, AtomicNeuralTransistor, TernarySignal};

const TEST_TISA: &str = r#"
.registers
    H0: i32[4]
    H1: i32[4]

.program
    load_input H0
    relu H1, H0
    store_output H1
    halt
"#;

#[test]
fn test_from_source() {
    let ant = AtomicNeuralTransistor::from_source(TEST_TISA);
    assert!(ant.is_ok());
    let ant = ant.unwrap();
    assert_eq!(ant.input_dim(), 4);
    assert_eq!(ant.output_dim(), 4);
}

#[test]
fn test_forward_ternary() {
    let mut ant = AtomicNeuralTransistor::from_source(TEST_TISA).unwrap();
    let input = vec![
        TernarySignal::positive(100),
        TernarySignal::negative(50),
        TernarySignal::positive(200),
        TernarySignal::zero(),
    ];
    let output = ant.forward(&input);
    assert!(output.is_ok());
    let output = output.unwrap();
    assert_eq!(output.len(), 4);
    // ReLU: positive stays, negative becomes zero
    assert!(output[0].magnitude > 0);
    assert_eq!(output[1].magnitude, 0); // was negative
    assert!(output[2].magnitude > 0);
    assert_eq!(output[3].magnitude, 0);
}

#[test]
fn test_forward_i32() {
    let mut ant = AtomicNeuralTransistor::from_source(TEST_TISA).unwrap();
    let input = vec![100, -50, 200, 0];
    let output = ant.forward_i32(&input);
    assert!(output.is_ok());
    let output = output.unwrap();
    assert_eq!(output.len(), 4);
    assert_eq!(output[0], 100);
    assert_eq!(output[1], 0); // ReLU clamps negative
    assert_eq!(output[2], 200);
    assert_eq!(output[3], 0);
}

#[test]
fn test_shape_mismatch() {
    let mut ant = AtomicNeuralTransistor::from_source(TEST_TISA).unwrap();
    let input = vec![TernarySignal::zero(); 2]; // wrong size
    let result = ant.forward(&input);
    assert!(result.is_err());
}

#[test]
fn shape_mismatch_carries_both_lengths() {
    let mut ant = AtomicNeuralTransistor::from_source(TEST_TISA).unwrap();
    match ant.forward_i32(&[1, 2, 3, 4, 5]) {
        Err(AntError::ShapeMismatch { expected, got }) => {
            assert_eq!(expected, 4);
            assert_eq!(got, 5);
        }
        other => panic!("unexpected {:?}", other),
    }
}

#[test]
fn forward_i32_passes_values_beyond_a_signal() {
    let mut ant = AtomicNeuralTransistor::from_source(TEST_TISA).unwrap();
    assert_eq!(ant.forward_i32(&[1000, -1000, 255, -255]).unwrap(), vec![1000, 0, 255, 0]);
}

#[test]
fn relu_on_signals_keeps_sign_and_magnitude() {
    let mut ant = AtomicNeuralTransistor::from_source(TEST_TISA).unwrap();
    let input = vec![
        TernarySignal::positive(100),
        TernarySignal::negative(50),
        TernarySignal::positive(200),
        TernarySignal::zero(),
    ];
    let output = ant.forward(&input).unwrap();
    assert_eq!(
        output,
        vec![
            TernarySignal::positive(100),
            TernarySignal::zero(),
            TernarySignal::positive(200),
            TernarySignal::zero(),
        ]
    );
}

#[test]
fn forward_on_signals_saturates_the_output() {
    let source = "
.registers
    H0: i32[2]
    H1: i32[2]
.program
    load_input H0
    add H1, H0, H0
    store_output H1
    halt
";
    let mut ant = AtomicNeuralTransistor::from_source(source).unwrap();
    assert_eq!(ant.forward_i32(&[200, -200]).unwrap(), vec![400, -400]);
    let output = ant
        .forward(&[TernarySignal::positive(200), TernarySignal::negative(200)])
        .unwrap();
    assert_eq!(output, vec![TernarySignal::positive(255), TernarySignal::negative(255)]);
}

#[test]
fn a_pass_leaves_nothing_for_the_next() {
    let source = "
.registers
    H0: i32[2]
    H1: i32[2]
.program
    load_input H0
    add H1, H1, H0
    store_output H1
    halt
";
    let mut ant = AtomicNeuralTransistor::from_source(source).unwrap();
    let first = ant.forward_i32(&[3, -4]).unwrap();
    let second = ant.forward_i32(&[3, -4]).unwrap();
    assert_eq!(first, vec![3, -4]);
    assert_eq!(second, first);
}

#[test]
fn assembling_twice_gives_the_same_outputs() {
    let mut one = AtomicNeuralTransistor::from_source(TEST_TISA).unwrap();
    let mut two = AtomicNeuralTransistor::from_source(TEST_TISA).unwrap();
    let input = [7, -7, 0, 300];
    assert_eq!(one.forward_i32(&input).unwrap(), two.forward_i32(&input).unwrap());
    assert_eq!(one.forward_i32(&input).unwrap(), vec![7, 0, 0, 300]);
}

#[test]
fn units_of_one_program_do_not_share_registers() {
    let program = atomic_neural_transistors::assemble(
        "
.registers
    H0: i32[1]
    H1: i32[1]
.program
    load_input H0
    add H1, H1, H0
    store_output H1
    halt
",
    )
    .unwrap();
    let mut one = AtomicNeuralTransistor::from_program(&program).unwrap();
    let mut two = AtomicNeuralTransistor::from_program(&program).unwrap();
    assert_eq!(one.forward_i32(&[5]).unwrap(), vec![5]);
    assert_eq!(two.forward_i32(&[-9]).unwrap(), vec![-9]);
    assert_eq!(one.forward_i32(&[5]).unwrap(), vec![5]);
    assert_eq!(two.forward_i32(&[-9]).unwrap(), vec![-9]);
}

#[test]
fn the_operations_of_the_machine_run() {
    let source = "
.registers
    H0: i32[3]
    H1: i32[3]
    H2: i32[3]
    H3: i32[1]
.program
    load_input H0
    copy_reg H1, H0
    sub H2, H0, H1
    cmp_gt H2, H0, H2
    mul H1, H0, H2
    zero_reg H2
    nop
    max_reduce H3, H1
    store_output H3
    halt
";
    let mut ant = AtomicNeuralTransistor::from_source(source).unwrap();
    assert_eq!(ant.input_dim(), 3);
    assert_eq!(ant.output_dim(), 1);
    // H2 = 255 where input > 0; H1 = (input * H2) >> 8; H3 = max
    assert_eq!(ant.forward_i32(&[256, -10, 512]).unwrap(), vec![510]);
}

#[test]
fn empty_input_is_a_shape_mismatch() {
    let mut ant = AtomicNeuralTransistor::from_source(TEST_TISA).unwrap();
    assert!(matches!(
        ant.forward(&[]),
        Err(AntError::ShapeMismatch { expected: 4, got: 0 })
    ));
}

#[test]
fn settle_keeps_lanes_of_the_declared_length() {
    assert_eq!(settle(Ok(vec![1, 2, 3]), 3).unwrap(), vec![1, 2, 3]);
    match settle(Ok(vec![1, 2]), 3) {
        Err(AntError::Execution(message)) => {
            assert_eq!(message, "output length differs from the declared shape")
        }
        other => panic!("unexpected {:?}", other),
    }
    match settle(Err(String::from("Source not allocated")), 3) {
        Err(AntError::Execution(message)) => assert_eq!(message, "Source not allocated"),
        other => panic!("unexpected {:?}", other),
    }
}

#[test]
fn signals_are_decoded_and_encoded_lane_by_lane() {
    let signals = [TernarySignal::positive(9), TernarySignal::negative(255), TernarySignal::zero()];
    assert_eq!(decode_all(&signals), vec![9, -255, 0]);
    assert_eq!(encode_all(&[9, -255, 0]), signals.to_vec());
    assert_eq!(
        encode_all(&[300, -300]),
        vec![TernarySignal::positive(255), TernarySignal::negative(255)]
    );
    assert_eq!(decode_all(&[]), Vec::<i32>::new());
}
