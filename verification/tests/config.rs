use atomic_neural_transistors::AtomicConfig;

#[test]
fn tiny_has_hidden_width_16() {
    let cfg = AtomicConfig::tiny(32, 1);
    assert_eq!(cfg.input_dim, 32);
    assert_eq!(cfg.hidden_dim, 16);
    assert_eq!(cfg.output_dim, 1);
    assert_eq!(cfg.iterations, 2);
}

#[test]
fn small_has_hidden_width_24() {
    let cfg = AtomicConfig::small(64, 3);
    assert_eq!(cfg.input_dim, 64);
    assert_eq!(cfg.hidden_dim, 24);
    assert_eq!(cfg.output_dim, 3);
    assert_eq!(cfg.iterations, 2);
}

#[test]
fn param_count_adds_the_four_layers() {
    // (32*16 + 16) + (16*16 + 16) + (2*16*16 + 16) + (16*1 + 1)
    assert_eq!(AtomicConfig::tiny(32, 1).param_count(), 528 + 272 + 528 + 17);
    // (64*24 + 24) + (24*24 + 24) + (2*24*24 + 24) + (24*1 + 1)
    assert_eq!(AtomicConfig::small(64, 1).param_count(), 1560 + 600 + 1176 + 25);
    assert_eq!(AtomicConfig::tiny(0, 0).param_count(), 16 + 272 + 528);
}

#[test]
fn tiny_units_stay_under_five_thousand_parameters() {
    assert!(AtomicConfig::tiny(32, 32).param_count() < 5000);
}

#[test]
fn checked_param_count_tells_whether_the_count_fits() {
    assert_eq!(AtomicConfig::tiny(32, 1).checked_param_count(), Some(1345));
    assert_eq!(AtomicConfig::tiny(usize::MAX, 1).checked_param_count(), None);
    let wide = AtomicConfig { input_dim: 1, hidden_dim: usize::MAX / 2, output_dim: 1, iterations: 1 };
    assert_eq!(wide.checked_param_count(), None);
    let zero = AtomicConfig { input_dim: usize::MAX, hidden_dim: 0, output_dim: 7, iterations: 1 };
    assert_eq!(zero.checked_param_count(), Some(7));
    assert_eq!(zero.param_count(), 7);
}

#[test]
fn specialised_units_have_their_dimensions() {
    let compare = AtomicConfig::compare(32);
    assert_eq!((compare.input_dim, compare.hidden_dim, compare.output_dim, compare.iterations), (64, 16, 1, 2));
    let diff = AtomicConfig::diff(8);
    assert_eq!((diff.input_dim, diff.hidden_dim, diff.output_dim, diff.iterations), (16, 24, 8, 2));
    let merge = AtomicConfig::merge(8, 3);
    assert_eq!((merge.input_dim, merge.hidden_dim, merge.output_dim, merge.iterations), (24, 24, 8, 2));
    let gate = AtomicConfig::gate(8);
    assert_eq!((gate.input_dim, gate.hidden_dim, gate.output_dim, gate.iterations), (16, 16, 8, 2));
    let classifier = AtomicConfig::classifier(10, 24);
    assert_eq!(
        (classifier.input_dim, classifier.hidden_dim, classifier.output_dim, classifier.iterations),
        (10, 24, 24, 3)
    );
}
