use atomic_neural_transistors::{Polarity, TernarySignal};

#[test]
fn constructors_decode_to_their_value() {
    assert_eq!(TernarySignal::positive(200).as_signed_integer(), 200);
    assert_eq!(TernarySignal::negative(50).as_signed_integer(), -50);
    assert_eq!(TernarySignal::zero().as_signed_integer(), 0);
    assert_eq!(TernarySignal::positive(255).as_signed_integer(), 255);
    assert_eq!(TernarySignal::negative(255).as_signed_integer(), -255);
}

#[test]
fn round_trip_for_every_sign_and_magnitude() {
    for magnitude in 0..=255u8 {
        for (polarity, factor) in
            [(Polarity::Negative, -1), (Polarity::Zero, 0), (Polarity::Positive, 1)]
        {
            let signal = TernarySignal::with_polarity(polarity, magnitude);
            assert_eq!(signal.as_signed_integer(), factor * magnitude as i32);
            assert_eq!(polarity.multiplier() as i32, factor);
            assert_eq!(TernarySignal::from_signed_integer(signal.as_signed_integer()), signal);
        }
    }
}

#[test]
fn zero_magnitude_is_the_silent_signal() {
    assert_eq!(TernarySignal::positive(0), TernarySignal::zero());
    assert_eq!(TernarySignal::negative(0), TernarySignal::zero());
    assert_eq!(TernarySignal::with_polarity(Polarity::Zero, 9), TernarySignal::zero());
    assert_eq!(TernarySignal::zero(), TernarySignal { polarity: 0, magnitude: 0 });
}

#[test]
fn accessors_read_sign_and_magnitude() {
    let up = TernarySignal::positive(200);
    let down = TernarySignal::negative(3);
    let silent = TernarySignal::zero();
    assert!(up.is_positive() && !up.is_negative());
    assert!(down.is_negative() && !down.is_positive());
    assert!(!silent.is_positive() && !silent.is_negative());
    assert_eq!(up.magnitude(), 200);
    assert_eq!(down.magnitude(), 3);
    assert_eq!(up.polarity(), Polarity::Positive);
    assert_eq!(down.polarity(), Polarity::Negative);
    assert_eq!(silent.polarity(), Polarity::Zero);
}

#[test]
fn integers_out_of_range_saturate() {
    assert_eq!(TernarySignal::from_signed_integer(256), TernarySignal::positive(255));
    assert_eq!(TernarySignal::from_signed_integer(-256), TernarySignal::negative(255));
    assert_eq!(TernarySignal::from_signed_integer(i32::MAX), TernarySignal::positive(255));
    assert_eq!(TernarySignal::from_signed_integer(i32::MIN), TernarySignal::negative(255));
    assert_eq!(TernarySignal::from_signed_integer(0), TernarySignal::zero());
    assert_eq!(TernarySignal::from_signed_integer(-7), TernarySignal::negative(7));
}

#[test]
fn a_signal_with_any_factor_decodes_to_the_product() {
    let odd = TernarySignal { polarity: 3, magnitude: 10 };
    assert_eq!(odd.as_signed_integer(), 30);
    assert!(odd.is_positive());
    let low = TernarySignal { polarity: -128, magnitude: 255 };
    assert_eq!(low.as_signed_integer(), -32640);
}
