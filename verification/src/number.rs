//! A fixed-point decimal number with saturating infinities: the
//! eventual consumer of the digit sequences the numeric literal parser
//! produces.

use vstd::prelude::*;

verus! {

/// The base of the fractional part: a whole unit holds this many
/// fractional steps, and a fractional part always stays below it.
pub const FRACTIONAL_WRAP: u128 = 100_000_000_000_000_000_000_000_000_000_000_000_000;

/// A fixed-point decimal number, or a saturating infinity.
#[derive(Debug, Eq, PartialEq)]
pub enum Number {
    Num { integral: i128, fractional: u128 },
    Infinity,
    NegativeInfinity,
}

/// What adding two numbers yields.  Fractional overflow carries one
/// unit into the integral part; integral overflow saturates to
/// infinity.  An infinity absorbs any finite number; two opposite
/// infinities cancel to zero.
pub open spec fn spec_add(a: Number, b: Number) -> Number {
    match (a, b) {
        (
            Number::Num { integral: ia, fractional: fa },
            Number::Num { integral: ib, fractional: fb },
        ) => {
            if ia + ib > i128::MAX || ia + ib < i128::MIN {
                Number::Infinity
            } else {
                if fa + fb >= FRACTIONAL_WRAP {
                    if ia + ib + 1 > i128::MAX {
                        Number::Infinity
                    } else {
                        Number::Num {
                            integral: (ia + ib + 1) as i128,
                            fractional: (fa + fb - FRACTIONAL_WRAP) as u128,
                        }
                    }
                } else {
                    Number::Num { integral: (ia + ib) as i128, fractional: (fa + fb) as u128 }
                }
            }
        },
        (Number::Num { .. }, Number::Infinity) => Number::Infinity,
        (Number::Infinity, Number::Num { .. }) => Number::Infinity,
        (Number::Infinity, Number::Infinity) => Number::Infinity,
        (Number::Num { .. }, Number::NegativeInfinity) => Number::NegativeInfinity,
        (Number::NegativeInfinity, Number::Num { .. }) => Number::NegativeInfinity,
        (Number::NegativeInfinity, Number::NegativeInfinity) => Number::NegativeInfinity,
        (Number::Infinity, Number::NegativeInfinity) => Number::Num {
            integral: 0,
            fractional: 0,
        },
        (Number::NegativeInfinity, Number::Infinity) => Number::Num {
            integral: 0,
            fractional: 0,
        },
    }
}

impl Number {
    /// A well-formed number keeps its fractional part below the wrap
    /// base.
    pub open spec fn wf(self) -> bool {
        match self {
            Number::Num { integral: _, fractional } => fractional < FRACTIONAL_WRAP,
            _ => true,
        }
    }

    /// A number from its integral and fractional parts.
    pub fn from_parts(integral: i128, frac: u128) -> (r: Self)
        requires
            frac < FRACTIONAL_WRAP,
        ensures
            r == (Number::Num { integral, fractional: frac }),
            r.wf(),
    {
        Number::Num { integral, fractional: frac }
    }

    /// The number zero.
    pub fn zero() -> (r: Self)
        ensures
            r == (Number::Num { integral: 0i128, fractional: 0u128 }),
            r.wf(),
    {
        Number::Num { integral: 0, fractional: 0 }
    }

    /// The number one.
    pub fn one() -> (r: Self)
        ensures
            r == (Number::Num { integral: 1i128, fractional: 0u128 }),
            r.wf(),
    {
        Number::Num { integral: 1, fractional: 0 }
    }

    /// Adds two well-formed numbers: the fractional parts carry into
    /// the integral part, and integral overflow saturates to infinity.
    pub fn add(self, rhs: Self) -> (r: Self)
        requires
            self.wf(),
            rhs.wf(),
        ensures
            r == spec_add(self, rhs),
            r.wf(),
    {
        match (self, rhs) {
            (
                Number::Num { integral: lhs_integral, fractional: lhs_fractional },
                Number::Num { integral: rhs_integral, fractional: rhs_fractional },
            ) => {
                // add the fractional part of the number
                let frac = lhs_fractional + rhs_fractional;
                // add the integral part of the number; if it overflows,
                // return infinity
                let overflows = (rhs_integral > 0 && lhs_integral > i128::MAX - rhs_integral) || (
                rhs_integral < 0 && lhs_integral < i128::MIN - rhs_integral);
                if overflows {
                    Number::Infinity
                } else {
                    let sum = lhs_integral + rhs_integral;
                    // check if the fraction should carry over
                    if frac >= FRACTIONAL_WRAP {
                        if sum == i128::MAX {
                            Number::Infinity
                        } else {
                            Number::from_parts(sum + 1, frac - FRACTIONAL_WRAP)
                        }
                    } else {
                        Number::from_parts(sum, frac)
                    }
                }
            },
            // 1 + oo = oo, oo + 1 = oo, oo + oo = oo
            (Number::Num { .. }, Number::Infinity) => Number::Infinity,
            (Number::Infinity, Number::Num { .. }) => Number::Infinity,
            (Number::Infinity, Number::Infinity) => Number::Infinity,
            // 1 + -oo = -oo, -oo + 1 = -oo, -oo + -oo = -oo
            (Number::Num { .. }, Number::NegativeInfinity) => Number::NegativeInfinity,
            (Number::NegativeInfinity, Number::Num { .. }) => Number::NegativeInfinity,
            (Number::NegativeInfinity, Number::NegativeInfinity) => Number::NegativeInfinity,
            // oo + -oo = 0, -oo + oo = 0
            (Number::Infinity, Number::NegativeInfinity) => Number::zero(),
            (Number::NegativeInfinity, Number::Infinity) => Number::zero(),
        }
    }
}

} // verus!
