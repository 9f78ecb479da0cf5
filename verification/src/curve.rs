//! The curves that the library is handed: functions of one number that it does not
//! compute itself.
//!
//! Whatever makes sound takes them as one function, which is asked for a curve by
//! name. What is proved of the sound holds for any such function, as long as it
//! answers by the curve and the number alone.

use crate::bounds;
use crate::single::Single;
use vstd::prelude::*;

verus! {

/// A function of one number.
#[derive(Debug, Clone, Copy, PartialEq, Eq, Structural)]
pub enum Curve {
    Sine,
    Cosine,
    Tangent,
    /// e to the power of the number.
    Exponential,
    /// 2 to the power of the number.
    TwoTo,
    /// 10 to the power of the number.
    TenTo,
    /// The natural logarithm.
    Logarithm,
    /// The logarithm to base 2.
    BinaryLogarithm,
    /// The logarithm to base 10.
    DecimalLogarithm,
    SquareRoot,
    /// The given number to the power of the number.
    Power(Single),
}

/// What a curve gives for a number.
pub open spec fn at<F: Fn(Curve, Single) -> Single>(f: F, c: Curve, x: Single) -> Single {
    choose|y: Single| call_ensures(f, (c, x), y)
}

/// Whether `f` can be asked for any curve at any number, and answers by these alone.
pub open spec fn gives_curves<F: Fn(Curve, Single) -> Single>(f: F) -> bool {
    &&& forall|c: Curve, x: Single| #[trigger] call_requires(f, (c, x))
    &&& forall|c: Curve, x: Single, y: Single| #[trigger]
        call_ensures(f, (c, x), y) ==> y == at(f, c, x)
}

/// Whether the exponential of a number that is not above zero lies between zero and one.
pub open spec fn decays<F: Fn(Curve, Single) -> Single>(f: F) -> bool {
    forall|x: Single|
        x.at_most(Single { bits: 0 }) ==> bounds::in_unit(
            #[trigger] at(f, Curve::Exponential, x),
        )
}

/// Reads a curve.
pub fn read<F: Fn(Curve, Single) -> Single + Copy>(f: F, c: Curve, x: Single) -> (y: Single)
    requires
        gives_curves(f),
    ensures
        y == at(f, c, x),
{
    f(c, x)
}

/// The coefficient of a one-pole that covers all but one e-th of its way in so many
/// steps.
pub open spec fn smoothing<F: Fn(Curve, Single) -> Single>(f: F, steps: Single) -> Single {
    at(f, Curve::Exponential, (Single { bits: 0xBF80_0000 }).quotient(steps))
}

/// The coefficient of a one-pole; without a number of steps it jumps.
pub fn smoothing_over<F: Fn(Curve, Single) -> Single + Copy>(f: F, steps: Option<Single>) -> (c: Single)
    requires
        gives_curves(f),
    ensures
        c == (match steps {
            Some(n) => smoothing(f, n),
            None => Single { bits: 0 },
        }),
{
    match steps {
        Some(n) => read(f, Curve::Exponential, (Single { bits: 0xBF80_0000 }).over(n)),
        None => Single { bits: 0 },
    }
}

} // verus!
