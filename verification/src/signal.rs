//! The ternary signal: a sign and an 8-bit magnitude in place of a float.

use vstd::prelude::*;

verus! {

/// Largest magnitude a signal can carry.
pub const MAX_MAGNITUDE: i32 = 255;

/// Sign of a signal.
#[derive(Clone, Copy, Debug, PartialEq, Eq, Structural, Hash)]
pub enum Polarity {
    /// Inhibitory.
    Negative,
    /// Silent.
    Zero,
    /// Excitatory.
    Positive,
}

impl Polarity {
    /// The factor that the sign stands for: -1, 0 or 1.
    pub open spec fn spec_multiplier(self) -> int {
        match self {
            Polarity::Negative => -1,
            Polarity::Zero => 0,
            Polarity::Positive => 1,
        }
    }

    /// The factor that the sign stands for: -1, 0 or 1.
    pub fn multiplier(self) -> (factor: i8)
        ensures
            factor == self.spec_multiplier(),
    {
        match self {
            Polarity::Negative => -1,
            Polarity::Zero => 0,
            Polarity::Positive => 1,
        }
    }
}

/// A signed quantity as a sign factor and a magnitude. Its value is the
/// product of the two, between -255 and 255 for a canonical signal.
#[derive(Clone, Copy, Debug, PartialEq, Eq, Structural, Hash)]
pub struct TernarySignal {
    /// Sign factor: -1, 0 or 1 in a canonical signal.
    pub polarity: i8,
    /// Magnitude, 0 to 255.
    pub magnitude: u8,
}

/// The sign of an integer: -1, 0 or 1.
pub open spec fn signum(value: int) -> int {
    if value > 0 {
        1
    } else if value < 0 {
        -1
    } else {
        0
    }
}

/// The integer nearest to `value` that a signal can carry.
pub open spec fn saturate(value: int) -> int {
    if value > MAX_MAGNITUDE {
        MAX_MAGNITUDE as int
    } else if value < -MAX_MAGNITUDE {
        -MAX_MAGNITUDE
    } else {
        value
    }
}

impl TernarySignal {
    /// The signed integer that the signal stands for.
    pub open spec fn value(&self) -> int {
        self.polarity * self.magnitude
    }

    /// A canonical signal has a sign factor of -1, 0 or 1, and the factor is 0
    /// exactly when the magnitude is 0. Every constructor returns one.
    pub open spec fn is_canonical(&self) -> bool {
        &&& -1 <= self.polarity <= 1
        &&& self.polarity == 0 <==> self.magnitude == 0
    }

    /// The signal that encodes a sign and a magnitude. A zero sign or a zero
    /// magnitude gives the silent signal.
    pub open spec fn encode(polarity: Polarity, magnitude: u8) -> Self {
        if magnitude == 0 || polarity == Polarity::Zero {
            TernarySignal { polarity: 0, magnitude: 0 }
        } else {
            TernarySignal { polarity: polarity.spec_multiplier() as i8, magnitude }
        }
    }

    /// The signal nearest to an integer: its sign, and its size up to 255.
    pub open spec fn nearest(value: int) -> Self {
        if value > 0 {
            TernarySignal { polarity: 1, magnitude: saturate(value) as u8 }
        } else if value < 0 {
            TernarySignal { polarity: -1i8, magnitude: (-saturate(value)) as u8 }
        } else {
            TernarySignal { polarity: 0, magnitude: 0 }
        }
    }

    /// The silent signal.
    pub fn zero() -> (signal: Self)
        ensures
            signal == Self::encode(Polarity::Zero, 0),
            signal.is_canonical(),
            signal.value() == 0,
    {
        proof {
            lemma_encode_round_trip(Polarity::Zero, 0);
        }
        TernarySignal { polarity: 0, magnitude: 0 }
    }

    /// The signal of value `magnitude`.
    pub fn positive(magnitude: u8) -> (signal: Self)
        ensures
            signal == Self::encode(Polarity::Positive, magnitude),
            signal.is_canonical(),
            signal.value() == magnitude,
    {
        let signal = Self::with_polarity(Polarity::Positive, magnitude);
        proof {
            lemma_value_sign(signal);
        }
        signal
    }

    /// The signal of value `-magnitude`.
    pub fn negative(magnitude: u8) -> (signal: Self)
        ensures
            signal == Self::encode(Polarity::Negative, magnitude),
            signal.is_canonical(),
            signal.value() == -magnitude,
    {
        let signal = Self::with_polarity(Polarity::Negative, magnitude);
        proof {
            lemma_value_sign(signal);
        }
        signal
    }

    /// The signal of the given sign and magnitude.
    pub fn with_polarity(polarity: Polarity, magnitude: u8) -> (signal: Self)
        ensures
            signal == Self::encode(polarity, magnitude),
            signal.is_canonical(),
            signal.value() == polarity.spec_multiplier() * magnitude,
    {
        proof {
            lemma_encode_round_trip(polarity, magnitude);
        }
        if magnitude == 0 {
            TernarySignal { polarity: 0, magnitude: 0 }
        } else {
            match polarity {
                Polarity::Negative => TernarySignal { polarity: -1, magnitude },
                Polarity::Zero => TernarySignal { polarity: 0, magnitude: 0 },
                Polarity::Positive => TernarySignal { polarity: 1, magnitude },
            }
        }
    }

    /// The signal nearest to `value`: values beyond 255 or below -255
    /// saturate at the largest magnitude, and no value is rejected.
    pub fn from_signed_integer(value: i32) -> (signal: Self)
        ensures
            signal == Self::nearest(value as int),
            signal.is_canonical(),
            signal.value() == saturate(value as int),
    {
        proof {
            lemma_nearest_round_trip(value as int);
        }
        if value == 0 {
            TernarySignal { polarity: 0, magnitude: 0 }
        } else if value > 0 {
            let magnitude: u8 = if value > MAX_MAGNITUDE { 255 } else { value as u8 };
            TernarySignal { polarity: 1, magnitude }
        } else {
            let magnitude: u8 = if value < -MAX_MAGNITUDE { 255 } else { (-value) as u8 };
            TernarySignal { polarity: -1, magnitude }
        }
    }

    /// The signed integer that the signal stands for, exactly.
    pub fn as_signed_integer(&self) -> (value: i32)
        ensures
            value == self.value(),
            -128 * MAX_MAGNITUDE <= value <= 127 * MAX_MAGNITUDE,
    {
        let factor: i32 = self.polarity as i32;
        let size: i32 = self.magnitude as i32;
        assert(-128 * 255 <= factor * size <= 127 * 255) by (nonlinear_arith)
            requires
                -128 <= factor <= 127,
                0 <= size <= 255,
        ;
        factor * size
    }

    /// The magnitude.
    pub fn magnitude(&self) -> (magnitude: u8)
        ensures
            magnitude == self.magnitude,
    {
        self.magnitude
    }

    /// The sign of the value.
    pub fn polarity(&self) -> (polarity: Polarity)
        ensures
            polarity.spec_multiplier() == signum(self.value()),
    {
        proof {
            lemma_value_sign(*self);
        }
        if self.polarity > 0 && self.magnitude > 0 {
            Polarity::Positive
        } else if self.polarity < 0 && self.magnitude > 0 {
            Polarity::Negative
        } else {
            Polarity::Zero
        }
    }

    /// Whether the value is above zero.
    pub fn is_positive(&self) -> (yes: bool)
        ensures
            yes == (self.value() > 0),
    {
        proof {
            lemma_value_sign(*self);
        }
        self.polarity > 0 && self.magnitude > 0
    }

    /// Whether the value is below zero.
    pub fn is_negative(&self) -> (yes: bool)
        ensures
            yes == (self.value() < 0),
    {
        proof {
            lemma_value_sign(*self);
        }
        self.polarity < 0 && self.magnitude > 0
    }
}

/// The value of a signal has the sign of its factor, unless the magnitude is
/// zero; with a factor of -1, 0 or 1 its size is the magnitude.
pub proof fn lemma_value_sign(signal: TernarySignal)
    ensures
        signal.magnitude == 0 ==> signal.value() == 0,
        signal.magnitude > 0 ==> signum(signal.value()) == signum(signal.polarity as int),
        signal.polarity == 1 ==> signal.value() == signal.magnitude,
        signal.polarity == -1 ==> signal.value() == -signal.magnitude,
{
    let p = signal.polarity as int;
    let m = signal.magnitude as int;
    assert(m == 0 ==> p * m == 0) by (nonlinear_arith);
    assert(m > 0 && p > 0 ==> p * m > 0) by (nonlinear_arith);
    assert(m > 0 && p < 0 ==> p * m < 0) by (nonlinear_arith);
    assert(p == 0 ==> p * m == 0) by (nonlinear_arith);
    assert(p == 1 ==> p * m == m) by (nonlinear_arith);
    assert(p == -1 ==> p * m == -m) by (nonlinear_arith);
}

/// Round trip from sign and magnitude: the signal that encodes a sign and a
/// magnitude is canonical, and decodes to the product of the sign factor and
/// the magnitude, for every sign and every magnitude.
pub proof fn lemma_encode_round_trip(polarity: Polarity, magnitude: u8)
    ensures
        TernarySignal::encode(polarity, magnitude).is_canonical(),
        TernarySignal::encode(polarity, magnitude).value() == polarity.spec_multiplier()
            * magnitude,
{
    lemma_value_sign(TernarySignal::encode(polarity, magnitude));
    let f = polarity.spec_multiplier();
    let m = magnitude as int;
    assert(f == 0 ==> f * m == 0) by (nonlinear_arith);
    assert(m == 0 ==> f * m == 0) by (nonlinear_arith);
    assert(f == 1 ==> f * m == m) by (nonlinear_arith);
    assert(f == -1 ==> f * m == -m) by (nonlinear_arith);
}

/// Round trip from an integer: the signal nearest to an integer is canonical
/// and decodes to that integer, saturated at 255 and -255.
pub proof fn lemma_nearest_round_trip(value: int)
    ensures
        TernarySignal::nearest(value).is_canonical(),
        TernarySignal::nearest(value).value() == saturate(value),
{
    lemma_value_sign(TernarySignal::nearest(value));
}

/// Round trip from a signal: a canonical signal is the one nearest to its own
/// value, so decoding and encoding again changes nothing.
pub proof fn lemma_canonical_round_trip(signal: TernarySignal)
    requires
        signal.is_canonical(),
    ensures
        -MAX_MAGNITUDE <= signal.value() <= MAX_MAGNITUDE,
        TernarySignal::nearest(signal.value()) == signal,
{
    lemma_value_sign(signal);
}

} // verus!
