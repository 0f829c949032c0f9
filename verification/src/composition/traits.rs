//! The binary equality unit that the compositions are built from.

use vstd::prelude::*;
use crate::signal::{TernarySignal, MAX_MAGNITUDE};

verus! {

/// Whether a signal affirms: its value is above half of the full scale, that
/// is at least 128 of 255.
pub open spec fn affirms(signal: TernarySignal) -> bool {
    2 * signal.value() > MAX_MAGNITUDE
}

/// Whether a signal affirms.
pub fn signal_affirms(signal: TernarySignal) -> (yes: bool)
    ensures
        yes == affirms(signal),
{
    2 * signal.as_signed_integer() > MAX_MAGNITUDE
}

/// A unit that judges whether two values are equal. Its answer is a signal
/// whose value, out of 255, is its confidence that they are.
pub trait EqualityChecker {
    /// The answer of the unit for two values. The unit gives the same answer
    /// whenever it is asked the same. Contracts speak of the unit by this
    /// function; a unit written in ordinary Rust gives here what
    /// `check_equal` gives.
    spec fn verdict(&self, a: u32, b: u32) -> TernarySignal;

    /// Asks the unit whether `a` and `b` are equal.
    fn check_equal(&self, a: u32, b: u32) -> (signal: TernarySignal)
        ensures
            signal == self.verdict(a, b),
    ;
}

impl<E: EqualityChecker> EqualityChecker for &E {
    open spec fn verdict(&self, a: u32, b: u32) -> TernarySignal {
        (**self).verdict(a, b)
    }

    fn check_equal(&self, a: u32, b: u32) -> (signal: TernarySignal) {
        (*self).check_equal(a, b)
    }
}

/// Whether the unit holds `a` and `b` to be equal: its answer affirms.
pub open spec fn judged_equal<E: EqualityChecker>(checker: &E, a: u32, b: u32) -> bool {
    affirms(checker.verdict(a, b))
}

/// Asks the unit and reads its answer.
pub fn judge<E: EqualityChecker>(checker: &E, a: u32, b: u32) -> (yes: bool)
    ensures
        yes == judged_equal(checker, a, b),
{
    signal_affirms(checker.check_equal(a, b))
}

/// The unit that is always right: full confidence for equal values, none
/// for others.
#[derive(Clone, Copy, Debug, Default)]
pub struct PerfectEquality;

impl EqualityChecker for PerfectEquality {
    open spec fn verdict(&self, a: u32, b: u32) -> TernarySignal {
        if a == b {
            TernarySignal { polarity: 1, magnitude: 255 }
        } else {
            TernarySignal { polarity: 0, magnitude: 0 }
        }
    }

    fn check_equal(&self, a: u32, b: u32) -> (signal: TernarySignal) {
        if a == b {
            TernarySignal::positive(255)
        } else {
            TernarySignal::zero()
        }
    }
}

/// The perfect unit holds two values to be equal exactly when they are.
pub proof fn lemma_perfect_equality(checker: &PerfectEquality, a: u32, b: u32)
    ensures
        judged_equal(checker, a, b) <==> a == b,
{
}

} // verus!
