//! The four binary arithmetic operations of the calculator.

use crate::fixed::{div_units, in_range, mul_units, Fixed, MAX_UNITS, SCALE};
use vstd::prelude::*;

verus! {

/// One of the four binary operations a calculator button selects.
#[derive(Debug, Clone, Copy, PartialEq, Eq, Structural)]
pub enum Operator {
    Add,
    Subtract,
    Multiply,
    Divide,
}

/// The exact value, in units, that applying `op` to `a` and `b` yields.
/// Intended for `b != 0` when `op` is `Divide`.
pub open spec fn op_apply(op: Operator, a: int, b: int) -> int {
    match op {
        Operator::Add => a + b,
        Operator::Subtract => a - b,
        Operator::Multiply => mul_units(a, b),
        Operator::Divide => div_units(a, b),
    }
}

impl Operator {
    /// Applies the operation; `None` exactly when the value falls outside
    /// the representable range.
    pub fn calculate(self, left: Fixed, right: Fixed) -> (r: Option<Fixed>)
        requires
            self is Divide ==> right@ != 0,
        ensures
            r is Some <==> in_range(op_apply(self, left@, right@)),
            r matches Some(v) ==> v@ == op_apply(self, left@, right@),
    {
        proof {
            use_type_invariant(&left);
            use_type_invariant(&right);
        }
        let a = left.units();
        let b = right.units();
        match self {
            Operator::Add => {
                let s = a + b;
                if -MAX_UNITS <= s && s <= MAX_UNITS {
                    Some(Fixed::from_units(s))
                } else {
                    None
                }
            }
            Operator::Subtract => {
                let s = a - b;
                if -MAX_UNITS <= s && s <= MAX_UNITS {
                    Some(Fixed::from_units(s))
                } else {
                    None
                }
            }
            Operator::Multiply => {
                let m1: u128 = if a < 0 { (-a) as u128 } else { a as u128 };
                let m2: u128 = if b < 0 { (-b) as u128 } else { b as u128 };
                proof {
                    assert(m1 * m2 <= (MAX_UNITS as u128) * (MAX_UNITS as u128))
                        by (nonlinear_arith)
                        requires
                            m1 <= MAX_UNITS as u128,
                            m2 <= MAX_UNITS as u128,
                    ;
                }
                let p = m1 * m2;
                let m = (2 * p + SCALE as u128) / (2 * SCALE as u128);
                if m <= MAX_UNITS as u128 {
                    let m_signed: i128 = if (a < 0) == (b < 0) {
                        m as i128
                    } else {
                        -(m as i128)
                    };
                    Some(Fixed::from_units(m_signed))
                } else {
                    None
                }
            }
            Operator::Divide => {
                let m1: u128 = if a < 0 { (-a) as u128 } else { a as u128 };
                let m2: u128 = if b < 0 { (-b) as u128 } else { b as u128 };
                let p = m1 * (SCALE as u128);
                let m = (2 * p + m2) / (2 * m2);
                if m <= MAX_UNITS as u128 {
                    let m_signed: i128 = if (a < 0) == (b < 0) {
                        m as i128
                    } else {
                        -(m as i128)
                    };
                    Some(Fixed::from_units(m_signed))
                } else {
                    None
                }
            }
        }
    }
}

} // verus!
